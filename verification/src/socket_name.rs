//! Control-socket naming policy, shared by the emulator's bind side and the
//! CLI's connect side so the two cannot disagree.

use crate::text::{chars_of, push_decimal, push_str, decimal};
use vstd::prelude::*;

verus! {

/// Basename of the control socket for the default (single-instance) case.
pub const SOCKET_FILENAME: &'static str = "bdemu.sock";

/// Terminator line written after a complete control-socket response.
pub const CONTROL_TERMINATOR: &'static str = ".";

/// Environment variable naming this emulator instance.
pub const INSTANCE_ENV: &'static str = "BDEMU_INSTANCE";

/// Longest accepted instance id, in bytes.
pub const MAX_INSTANCE_LEN: usize = 64;

/// Characters an instance id may hold: ASCII letters and digits, `-`, `_`.
pub open spec fn instance_char_ok(c: char) -> bool {
    ('a' <= c && c <= 'z') || ('A' <= c && c <= 'Z') || ('0' <= c && c <= '9') || c == '-' || c
        == '_'
}

/// The error for an over-long instance id of `n` bytes.
pub open spec fn too_long_message(n: nat) -> Seq<char> {
    INSTANCE_ENV@ + " is too long ("@ + decimal(n) + " chars, max "@ + decimal(
        MAX_INSTANCE_LEN as nat,
    ) + ")"@
}

/// The error for an instance id holding a forbidden character.
pub open spec fn invalid_id_message(id: Seq<char>) -> Seq<char> {
    INSTANCE_ENV@ + " '"@ + id
        + "' is not a valid instance id: use only ASCII letters, digits, '-' and '_'"@
}

/// The error for an unusable runtime directory.
pub open spec fn no_runtime_dir_message() -> Seq<char> {
    "XDG_RUNTIME_DIR is unset or empty; refusing to create a world-accessible control socket in /tmp. Set XDG_RUNTIME_DIR to a private per-user runtime directory (e.g. /run/user/$(id -u)) and retry."@
}

/// The socket basename for an instance id given by its characters and its
/// length in bytes. An absent or empty id is the default instance.
pub open spec fn socket_filename_of(instance: Option<Seq<char>>, byte_len: nat) -> Result<
    Seq<char>,
    Seq<char>,
> {
    match instance {
        None => Ok(SOCKET_FILENAME@),
        Some(id) => if id.len() == 0 {
            Ok(SOCKET_FILENAME@)
        } else if byte_len > MAX_INSTANCE_LEN {
            Err(too_long_message(byte_len))
        } else if forall|i: int| 0 <= i < id.len() ==> instance_char_ok(#[trigger] id[i]) {
            Ok("bdemu-"@ + id + ".sock"@)
        } else {
            Err(invalid_id_message(id))
        },
    }
}

/// The view of a `Result` of two strings.
pub open spec fn result_view(r: Result<String, String>) -> Result<Seq<char>, Seq<char>> {
    match r {
        Ok(s) => Ok(s@),
        Err(e) => Err(e@),
    }
}

/// The characters of an optional string slice.
pub open spec fn opt_chars(o: Option<&str>) -> Option<Seq<char>> {
    match o {
        Some(s) => Some(s@),
        None => None,
    }
}

/// The byte length of an optional string slice.
pub open spec fn opt_byte_len(o: Option<&str>) -> nat {
    match o {
        Some(s) => s.len() as nat,
        None => 0,
    }
}

fn is_instance_char(c: char) -> (b: bool)
    ensures
        b == instance_char_ok(c),
{
    ('a' <= c && c <= 'z') || ('A' <= c && c <= 'Z') || ('0' <= c && c <= '9') || c == '-' || c
        == '_'
}

/// Socket basename for an instance id. The id lands in a filename inside the
/// private runtime directory, so anything but a plain ASCII
/// letter/digit/`-`/`_` name is rejected (never sanitised), as is an id of more
/// than 64 bytes.
pub fn socket_filename(instance: Option<&str>) -> (r: Result<String, String>)
    ensures
        result_view(r) == socket_filename_of(opt_chars(instance), opt_byte_len(instance)),
{
    match instance {
        None => {
            let f = String::from_str(SOCKET_FILENAME);
            assert(f@ == SOCKET_FILENAME@);
            Ok(f)
        },
        Some(id) => {
            if id.is_empty() {
                return Ok(String::from_str(SOCKET_FILENAME));
            }
            if id.len() > MAX_INSTANCE_LEN {
                let mut msg = String::from_str(INSTANCE_ENV);
                push_str(&mut msg, " is too long (");
                push_decimal(&mut msg, id.len() as u64);
                push_str(&mut msg, " chars, max ");
                push_decimal(&mut msg, MAX_INSTANCE_LEN as u64);
                push_str(&mut msg, ")");
                assert(msg@ == too_long_message(id.len() as nat));
                return Err(msg);
            }
            let cs = chars_of(id);
            let mut i: usize = 0;
            while i < cs.len()
                invariant
                    instance == Some(id),
                    cs@ == id@,
                    id@.len() > 0,
                    id.len() <= MAX_INSTANCE_LEN,
                    i <= cs@.len(),
                    forall|j: int| 0 <= j < i ==> instance_char_ok(#[trigger] cs@[j]),
                decreases cs@.len() - i,
            {
                if !is_instance_char(cs[i]) {
                    let mut msg = String::from_str(INSTANCE_ENV);
                    push_str(&mut msg, " '");
                    push_str(&mut msg, id);
                    push_str(
                        &mut msg,
                        "' is not a valid instance id: use only ASCII letters, digits, '-' and '_'",
                    );
                    assert(!instance_char_ok(id@[i as int]));
                    assert(!(forall|j: int| 0 <= j < id@.len() ==> instance_char_ok(#[trigger] id@[j])));
                    assert(msg@ == invalid_id_message(id@));
                    return Err(msg);
                }
                i = i + 1;
            }
            let mut name = String::from_str("bdemu-");
            push_str(&mut name, id);
            push_str(&mut name, ".sock");
            assert(name@ == "bdemu-"@ + id@ + ".sock"@);
            Ok(name)
        },
    }
}

/// `dir` joined with a relative file name, as a path join does: a `/` is
/// put between them unless `dir` already ends with one.
pub open spec fn join_path(dir: Seq<char>, file: Seq<char>) -> Seq<char> {
    if dir.len() > 0 && dir.last() == '/' {
        dir + file
    } else {
        dir + "/"@ + file
    }
}

/// The control-socket path: the instance's socket inside the runtime
/// directory. An unset or empty runtime directory is refused rather than
/// falling back to a world-accessible `/tmp`.
pub open spec fn socket_path_of(
    runtime_dir: Option<Seq<char>>,
    instance: Option<Seq<char>>,
    instance_bytes: nat,
) -> Result<Seq<char>, Seq<char>> {
    match socket_filename_of(instance, instance_bytes) {
        Err(e) => Err(e),
        Ok(f) => match runtime_dir {
            Some(dir) => if dir.len() > 0 {
                Ok(join_path(dir, f))
            } else {
                Err(no_runtime_dir_message())
            },
            None => Err(no_runtime_dir_message()),
        },
    }
}

/// Path to the control socket, from the runtime directory and the instance
/// id (both as read from the environment).
pub fn socket_path_from(xdg_runtime_dir: Option<&str>, instance: Option<&str>) -> (r: Result<
    String,
    String,
>)
    ensures
        result_view(r) == socket_path_of(
            opt_chars(xdg_runtime_dir),
            opt_chars(instance),
            opt_byte_len(instance),
        ),
{
    let filename = match socket_filename(instance) {
        Ok(f) => f,
        Err(e) => return Err(e),
    };
    match xdg_runtime_dir {
        Some(dir) => {
            if !dir.is_empty() {
                let cs = chars_of(dir);
                let mut path = String::from_str(dir);
                if cs[cs.len() - 1] != '/' {
                    push_str(&mut path, "/");
                }
                push_str(&mut path, filename.as_str());
                return Ok(path);
            }
        },
        None => {},
    }
    Err(
        String::from_str(
            "XDG_RUNTIME_DIR is unset or empty; refusing to create a world-accessible control socket in /tmp. Set XDG_RUNTIME_DIR to a private per-user runtime directory (e.g. /run/user/$(id -u)) and retry.",
        ),
    )
}

/// Two different instance ids that are accepted name two different sockets,
/// and neither names the default instance's socket.
pub proof fn law_instances_get_distinct_sockets(a: Seq<char>, b: Seq<char>, na: nat, nb: nat)
    requires
        a.len() > 0,
        b.len() > 0,
        a != b,
        socket_filename_of(Some(a), na) is Ok,
        socket_filename_of(Some(b), nb) is Ok,
    ensures
        socket_filename_of(Some(a), na) != socket_filename_of(Some(b), nb),
        socket_filename_of(Some(a), na) != Ok::<Seq<char>, Seq<char>>(SOCKET_FILENAME@),
{
    reveal_strlit("bdemu-");
    reveal_strlit(".sock");
    reveal_strlit("bdemu.sock");
    let fa = "bdemu-"@ + a + ".sock"@;
    let fb = "bdemu-"@ + b + ".sock"@;
    assert(socket_filename_of(Some(a), na) == Ok::<Seq<char>, Seq<char>>(fa));
    assert(socket_filename_of(Some(b), nb) == Ok::<Seq<char>, Seq<char>>(fb));
    assert("bdemu-"@.len() == 6);
    assert(".sock"@.len() == 5);
    assert(fa.len() == a.len() + 11);
    assert(fb.len() == b.len() + 11);
    if fa == fb {
        assert(a.len() == b.len());
        assert forall|i: int| 0 <= i < a.len() implies a[i] == b[i] by {
            assert(fa[6 + i] == a[i]);
            assert(fb[6 + i] == b[i]);
        }
        assert(a =~= b);
    }
    assert(fa[5] == '-');
    assert(SOCKET_FILENAME@[5] == '.');
}

} // verus!
