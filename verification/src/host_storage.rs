//! Plugin storage rooted under the host's `/tmp`: a namespace directory and the relative
//! paths below it.  Paths are checked so that nothing escapes the namespace; the file system
//! access itself is done by the caller.
use vstd::prelude::*;

use crate::text::{chars_eq, chars_of, split_char, split_char_exec, string_of};
use crate::treemin::naming::{path_join, path_join_exec};

verus! {

/// The directory under which every namespace lives.
pub const HOST_ROOT: &'static str = "/tmp";

/// What kind of failure a storage operation met.
#[derive(Clone, Copy, Debug, PartialEq, Eq, Structural)]
pub enum StorageErrorKind {
    /// The path given was not acceptable.
    InvalidInput,
    /// The file does not exist.
    NotFound,
    /// Any other failure of the file system.
    Other,
}

/// A failed storage operation.
#[derive(Clone, Debug)]
pub struct StorageError {
    pub kind: StorageErrorKind,
    pub message: String,
}

impl StorageError {
    pub fn kind(&self) -> (k: StorageErrorKind)
        ensures
            k == self.kind,
    {
        self.kind
    }
}

/// A namespace directory under a host root.
#[derive(Clone, Debug)]
pub struct HostStorage {
    root: String,
}

/// Why a relative path is refused, if it is: it is empty, it is absolute, or one of its
/// components is `..`.
pub open spec fn relative_path_problem(p: Seq<char>) -> Option<Seq<char>> {
    if p.len() == 0 {
        Some("path must not be empty"@)
    } else if p[0] == '/' {
        Some("path must be relative"@)
    } else if split_char(p, '/').contains(".."@) {
        Some("path must stay within the host storage root"@)
    } else {
        None
    }
}

pub open spec fn invalid_input(message: Seq<char>, e: StorageError) -> bool {
    e.kind == StorageErrorKind::InvalidInput && e.message@ == message
}

/// Checks that `path` is a non-empty relative path that stays inside the storage root.
pub fn validate_relative_path(path: &str) -> (res: Result<(), StorageError>)
    ensures
        match relative_path_problem(path@) {
            Some(m) => res is Err && invalid_input(m, res->Err_0),
            None => res is Ok,
        },
{
    let p = chars_of(path);
    if p.len() == 0 {
        return Err(StorageError { kind: StorageErrorKind::InvalidInput, message: String::from_str("path must not be empty") });
    }
    if p[0] == '/' {
        return Err(StorageError { kind: StorageErrorKind::InvalidInput, message: String::from_str("path must be relative") });
    }
    let parts = split_char_exec(&p, '/');
    let dotdot: [char; 2] = ['.', '.'];
    let ghost ps = split_char(p@, '/');
    proof {
        reveal_strlit("..");
    }
    let mut i: usize = 0;
    while i < parts.len()
        invariant
            i <= parts@.len() == ps.len(),
            ps == split_char(p@, '/'),
            p@ == path@,
            p@.len() > 0,
            p@[0] != '/',
            dotdot@ == ".."@,
            forall|k: int| 0 <= k < parts@.len() ==> #[trigger] parts@[k]@ == ps[k],
            forall|k: int| 0 <= k < i ==> ps[k] != ".."@,
        decreases parts@.len() - i,
    {
        if chars_eq(&parts[i], &dotdot) {
            assert(ps[i as int] == ".."@);
            assert(ps.contains(".."@));
            return Err(StorageError { kind: StorageErrorKind::InvalidInput, message: String::from_str("path must stay within the host storage root") });
        }
        i = i + 1;
    }
    Ok(())
}

impl View for HostStorage {
    type V = Seq<char>;

    /// The namespace directory, as text.
    closed spec fn view(&self) -> Seq<char> {
        self.root@
    }
}

impl HostStorage {
    /// The storage for `namespace` under [`HOST_ROOT`].
    pub fn new(namespace: &str) -> (res: Result<HostStorage, StorageError>)
        ensures
            match relative_path_problem(namespace@) {
                Some(m) => res is Err && invalid_input(m, res->Err_0),
                None => res is Ok && res->Ok_0@ == path_join(HOST_ROOT@, namespace@),
            },
    {
        Self::with_host_root(HOST_ROOT, namespace)
    }

    /// The storage for `namespace` under `host_root`.
    pub fn with_host_root(host_root: &str, namespace: &str) -> (res: Result<HostStorage, StorageError>)
        ensures
            match relative_path_problem(namespace@) {
                Some(m) => res is Err && invalid_input(m, res->Err_0),
                None => res is Ok && res->Ok_0@ == path_join(host_root@, namespace@),
            },
    {
        validate_relative_path(namespace)?;
        Ok(Self::joined(host_root, namespace))
    }

    /// The storage for a namespace already known to be a valid relative path.
    pub(crate) fn joined(host_root: &str, namespace: &str) -> (res: HostStorage)
        requires
            relative_path_problem(namespace@) is None,
        ensures
            res@ == path_join(host_root@, namespace@),
    {
        let root = path_join_exec(&chars_of(host_root), &chars_of(namespace));
        HostStorage { root: string_of(&root) }
    }

    /// The namespace directory.
    pub fn root(&self) -> (res: &str)
        ensures
            res@ == self@,
    {
        self.root.as_str()
    }

    /// The full path of `relative_path` inside the namespace.
    pub fn path(&self, relative_path: &str) -> (res: Result<String, StorageError>)
        ensures
            match relative_path_problem(relative_path@) {
                Some(m) => res is Err && invalid_input(m, res->Err_0),
                None => res is Ok && res->Ok_0@ == path_join(self@, relative_path@),
            },
    {
        validate_relative_path(relative_path)?;
        let p = path_join_exec(&chars_of(self.root.as_str()), &chars_of(relative_path));
        Ok(string_of(&p))
    }
}

/// Every path that a storage hands out lies inside its namespace directory: it is the root
/// followed (after a `/` where the root lacks one) by the relative path, which is not
/// absolute and has no `..` component.
pub proof fn lemma_paths_stay_inside(root: Seq<char>, relative_path: Seq<char>)
    requires
        relative_path_problem(relative_path) is None,
    ensures
        path_join(root, relative_path) == root + relative_path || path_join(root, relative_path) == root
            + seq!['/'] + relative_path,
        path_join(root, relative_path).take(root.len() as int) == root,
        relative_path.len() > 0 && relative_path[0] != '/',
        !split_char(relative_path, '/').contains(".."@),
{
    let p = path_join(root, relative_path);
    if root.len() == 0 || root.last() == '/' {
        assert(p.take(root.len() as int) =~= root);
    } else {
        assert(p.take(root.len() as int) =~= root);
    }
}

} // verus!
