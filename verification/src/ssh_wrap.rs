//! Where the `ssh` wrapper that turns off connection sharing for
//! multiplexing clients goes, and which real `ssh` it calls.

use vstd::prelude::*;
use vstd::string::*;
use crate::text::lit;

verus! {

/// The real `ssh` the wrapper calls: `/usr/bin/ssh` when that is a file,
/// else `/bin/ssh` when that is, else `ssh` as found on `PATH`.
pub open spec fn real_ssh_spec(usr_bin_ssh: bool, bin_ssh: bool) -> Seq<char> {
    if usr_bin_ssh {
        "/usr/bin/ssh"@
    } else if bin_ssh {
        "/bin/ssh"@
    } else {
        "ssh"@
    }
}

/// The real `ssh`, given whether `/usr/bin/ssh` and `/bin/ssh` are files.
pub fn resolve_real_ssh(usr_bin_ssh: bool, bin_ssh: bool) -> (r: String)
    ensures
        r@ == real_ssh_spec(usr_bin_ssh, bin_ssh),
{
    if usr_bin_ssh {
        lit("/usr/bin/ssh")
    } else if bin_ssh {
        lit("/bin/ssh")
    } else {
        lit("ssh")
    }
}

/// `base` joined with the relative path `part`, a separator between them
/// unless `base` is empty or already ends with one (`Path::join`).
pub open spec fn join_path(base: Seq<char>, part: Seq<char>) -> Seq<char> {
    if base.len() > 0 && base.last() != '/' {
        base + "/"@ + part
    } else {
        base + part
    }
}

/// `base` joined with the relative path `part`.
fn join(base: &str, part: &str) -> (r: String)
    ensures
        r@ == join_path(base@, part@),
{
    let n = base.unicode_len();
    let mut r = lit(base);
    if n > 0 && base.get_char(n - 1) != '/' {
        r.append("/");
    }
    r.append(part);
    r
}

/// The directory the wrapper is installed in: under `$XDG_CACHE_HOME` when
/// set, else under the home directory (`Library/Caches` on macOS, `.cache`
/// elsewhere), else under the temporary directory.
pub open spec fn wrap_dir_spec(xdg_cache: Option<Seq<char>>, home: Option<Seq<char>>, macos: bool, temp: Seq<char>) -> Seq<
    char,
> {
    match xdg_cache {
        Some(c) => join_path(c, "d9cker/bin"@),
        None => match home {
            Some(h) => if macos {
                join_path(h, "Library/Caches/d9cker/bin"@)
            } else {
                join_path(h, ".cache/d9cker/bin"@)
            },
            None => join_path(temp, "d9cker-ssh-wrap"@),
        },
    }
}

/// The directory the wrapper is installed in, from `$XDG_CACHE_HOME`,
/// `$HOME`, whether this is macOS, and the temporary directory.
pub fn wrap_dir(xdg_cache: Option<String>, home: Option<String>, macos: bool, temp: &str) -> (r: String)
    ensures
        r@ == wrap_dir_spec(
            match xdg_cache {
                Some(c) => Some(c@),
                None => None,
            },
            match home {
                Some(h) => Some(h@),
                None => None,
            },
            macos,
            temp@,
        ),
{
    match xdg_cache {
        Some(c) => join(c.as_str(), "d9cker/bin"),
        None => match home {
            Some(h) => if macos {
                join(h.as_str(), "Library/Caches/d9cker/bin")
            } else {
                join(h.as_str(), ".cache/d9cker/bin")
            },
            None => join(temp, "d9cker-ssh-wrap"),
        },
    }
}

} // verus!
