//! Where the server's socket is.

use vstd::prelude::*;
use vstd::string::*;

use crate::text;
use crate::text::push_decimal;

verus! {

/// A file name below a directory: separated by a slash, unless the directory is
/// empty or ends in one.
pub open spec fn joined(dir: Seq<char>, name: Seq<char>) -> Seq<char> {
    if dir.len() == 0 || dir.last() == '/' {
        dir + name
    } else {
        dir + "/"@ + name
    }
}

/// Put a file name below a directory.
fn join(dir: &str, name: &str) -> (res: String)
    ensures
        res@ == joined(dir@, name@),
{
    let mut res: String = dir.to_owned();
    let n: usize = dir.unicode_len();
    if n > 0 && dir.get_char(n - 1) != '/' {
        res.append("/");
    }
    res.append(name);
    res
}

/// Socket directory. Prefers `$XDG_RUNTIME_DIR/retach` (per-user, managed by the
/// system) and falls back to `/tmp/retach-{uid}`.
pub fn socket_dir(xdg_runtime_dir: Option<String>, uid: u32) -> (res: String)
    ensures
        res@ == (match xdg_runtime_dir {
            Some(xdg) => joined(xdg@, "retach"@),
            None => "/tmp/retach-"@ + text::decimal_text(uid as nat),
        }),
{
    match xdg_runtime_dir {
        Some(xdg) => join(xdg.as_str(), "retach"),
        None => {
            let mut res: String = "/tmp/retach-".to_owned();
            push_decimal(&mut res, uid as u64);
            res
        },
    }
}

/// Return the full path to the server's Unix domain socket.
pub fn socket_path(dir: &str) -> (res: String)
    ensures
        res@ == joined(dir@, "retach.sock"@),
{
    join(dir, "retach.sock")
}

/// Return the full path to the server startup lockfile.
pub fn lock_path(dir: &str) -> (res: String)
    ensures
        res@ == joined(dir@, "retach.lock"@),
{
    join(dir, "retach.lock")
}

/// What to do with a socket directory that exists already.
#[derive(Copy, Clone, Debug, PartialEq, Eq, Structural)]
pub enum DirVerdict {
    /// Use it as it is.
    Accept,
    /// Use it, once only its owner has access to it.
    FixPermissions,
    /// Refuse it: it is a symbolic link.
    Symlink,
    /// Refuse it: it belongs to someone else.
    WrongOwner,
}

/// Judge a socket directory that exists already: it must be no symbolic link and
/// belong to the user, and nobody else may have access to it.
pub fn judge_dir(is_symlink: bool, owner: u32, uid: u32, mode: u32) -> (res: DirVerdict)
    ensures
        res == (if is_symlink {
            DirVerdict::Symlink
        } else if owner != uid {
            DirVerdict::WrongOwner
        } else if mode % 512 != 0o700 {
            DirVerdict::FixPermissions
        } else {
            DirVerdict::Accept
        }),
{
    assert(mode & 0o777 == mode % 512) by (bit_vector);
    if is_symlink {
        DirVerdict::Symlink
    } else if owner != uid {
        DirVerdict::WrongOwner
    } else if mode & 0o777 != 0o700 {
        DirVerdict::FixPermissions
    } else {
        DirVerdict::Accept
    }
}

/// A file name goes below a directory with one slash between them; an empty directory
/// takes none, and one that ends in a slash no other.
pub proof fn law_joined(dir: Seq<char>, name: Seq<char>)
    ensures
        joined(seq![], name) == name,
        joined(dir.push('/'), name) == dir + seq!['/'] + name,
        dir.len() > 0 && dir.last() != '/' ==> joined(dir, name) == dir + seq!['/'] + name,
{
    reveal_strlit("/");
    assert("/"@ =~= seq!['/']);
    assert(seq![] + name =~= name);
    assert(dir.push('/') + name =~= dir + seq!['/'] + name);
}

} // verus!
