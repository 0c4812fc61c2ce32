//! The compositor control-socket protocol: socket paths from the
//! environment, request framing, batching, and dispatch replies.
//! The socket I/O itself stays outside the library; these functions
//! compute exactly what goes over the wire and what a reply means.

use vstd::prelude::*;
use crate::errors::ErrorKind;
use crate::errors::VelaError;
use crate::text::str_eq;
use vstd::string::StrSliceExecFns;
use vstd::string::StringExecFns;

verus! {

/// The socket directory `<runtime>/hypr/<signature>`.
pub open spec fn spec_socket_base(xdg: Seq<char>, sig: Seq<char>) -> Seq<char> {
    xdg + "/hypr/"@ + sig
}

fn socket_base(xdg: Option<&String>, sig: Option<&String>) -> (r: Result<String, VelaError>)
    ensures
        match r {
            Ok(s) => xdg is Some && sig is Some && s@ == spec_socket_base(
                xdg.unwrap()@,
                sig.unwrap()@,
            ),
            Err(e) => (xdg is None || sig is None) && e.kind == ErrorKind::Config,
        },
{
    let x = match xdg {
        None => {
            return Err(
                VelaError::new(ErrorKind::Config, String::from_str("XDG_RUNTIME_DIR not set")),
            );
        },
        Some(x) => x,
    };
    let s = match sig {
        None => {
            return Err(
                VelaError::new(
                    ErrorKind::Config,
                    String::from_str("HYPRLAND_INSTANCE_SIGNATURE not set"),
                ),
            );
        },
        Some(s) => s,
    };
    let mut out = x.clone();
    out.append("/hypr/");
    out.append(s.as_str());
    Ok(out)
}

/// The request socket's path, given the two environment values; a
/// missing value is a configuration error before any connection.
pub fn socket_path(xdg: Option<&String>, sig: Option<&String>) -> (r: Result<String, VelaError>)
    ensures
        match r {
            Ok(s) => xdg is Some && sig is Some && s@ == spec_socket_base(
                xdg.unwrap()@,
                sig.unwrap()@,
            ) + "/.socket.sock"@,
            Err(e) => (xdg is None || sig is None) && e.kind == ErrorKind::Config,
        },
{
    match socket_base(xdg, sig) {
        Ok(mut b) => {
            b.append("/.socket.sock");
            Ok(b)
        },
        Err(e) => Err(e),
    }
}

/// The event socket's path, under the same base directory.
pub fn socket2_path(xdg: Option<&String>, sig: Option<&String>) -> (r: Result<String, VelaError>)
    ensures
        match r {
            Ok(s) => xdg is Some && sig is Some && s@ == spec_socket_base(
                xdg.unwrap()@,
                sig.unwrap()@,
            ) + "/.socket2.sock"@,
            Err(e) => (xdg is None || sig is None) && e.kind == ErrorKind::Config,
        },
{
    match socket_base(xdg, sig) {
        Ok(mut b) => {
            b.append("/.socket2.sock");
            Ok(b)
        },
        Err(e) => Err(e),
    }
}

/// The wire form of one request: a `j/` prefix asks for JSON.
pub open spec fn spec_frame(msg: Seq<char>, json: bool) -> Seq<char> {
    if json {
        "j/"@ + msg
    } else {
        msg
    }
}

/// Frames one request body.
pub fn frame_request(msg: &str, json: bool) -> (r: String)
    ensures
        r@ == spec_frame(msg@, json),
{
    if json {
        let mut out = String::from_str("j/");
        out.append(msg);
        out
    } else {
        msg.to_owned()
    }
}

/// Whitespace that `trim` removes at the edges of a message.
pub open spec fn is_sp(c: char) -> bool {
    c == ' ' || c == '\t' || c == '\n' || c == '\r'
}

pub open spec fn first_non_sp(s: Seq<char>, i: int) -> int
    decreases s.len() - i,
{
    if i < 0 || i >= s.len() {
        s.len() as int
    } else if is_sp(s[i]) {
        first_non_sp(s, i + 1)
    } else {
        i
    }
}

pub open spec fn end_non_sp(s: Seq<char>) -> int
    decreases s.len(),
{
    if s.len() == 0 {
        0
    } else if is_sp(s[s.len() - 1]) {
        end_non_sp(s.take(s.len() - 1))
    } else {
        s.len() as int
    }
}

/// The text without leading and trailing whitespace.
pub open spec fn spec_trim(s: Seq<char>) -> Seq<char> {
    let a = first_non_sp(s, 0);
    let b = end_non_sp(s);
    if a < b {
        s.subrange(a, b)
    } else {
        Seq::empty()
    }
}

/// Finds where the leading whitespace ends.
fn first_non_sp_at(s: &str) -> (a: usize)
    ensures
        a as int == first_non_sp(s@, 0),
        a <= s@.len(),
        a < s@.len() ==> !is_sp(s@[a as int]),
{
    let n = s.unicode_len();
    let mut a: usize = 0;
    loop
        invariant
            n == s@.len(),
            a <= n,
            first_non_sp(s@, 0) == first_non_sp(s@, a as int),
        decreases n - a,
    {
        if a == n {
            return a;
        }
        let c = s.get_char(a);
        if !(c == ' ' || c == '\t' || c == '\n' || c == '\r') {
            return a;
        }
        a = a + 1;
    }
}

/// Trims whitespace from both ends.
pub fn trim_spaces(s: &str) -> (r: String)
    ensures
        r@ == spec_trim(s@),
{
    let n = s.unicode_len();
    let a = first_non_sp_at(s);
    if a == n {
        proof {
            lemma_end_non_sp_le(s@);
        }
        return String::new();
    }
    let mut b: usize = n;
    proof {
        assert(s@.take(n as int) =~= s@);
    }
    loop
        invariant
            n == s@.len(),
            a < n,
            a as int == first_non_sp(s@, 0),
            !is_sp(s@[a as int]),
            a < b <= n || b == a,
            end_non_sp(s@) == end_non_sp(s@.take(b as int)),
        decreases b,
    {
        if b == a {
            proof {
                lemma_end_non_sp_le(s@.take(a as int));
                assert(end_non_sp(s@) <= a as int);
            }
            return String::new();
        }
        let c = s.get_char(b - 1);
        proof {
            assert(s@.take(b as int)[b - 1] == s@[b - 1]);
            assert(s@.take(b as int).take(b as int - 1) =~= s@.take(b as int - 1));
        }
        if !(c == ' ' || c == '\t' || c == '\n' || c == '\r') {
            proof {
                assert(end_non_sp(s@.take(b as int)) == b as int);
            }
            let r = s.substring_char(a, b).to_owned();
            return r;
        }
        b = b - 1;
    }
}

proof fn lemma_end_non_sp_le(s: Seq<char>)
    ensures
        0 <= end_non_sp(s) <= s.len(),
    decreases s.len(),
{
    if s.len() > 0 && is_sp(s[s.len() - 1]) {
        lemma_end_non_sp_le(s.take(s.len() - 1));
    }
}

/// The words of a dispatch request, joined by single spaces.
pub open spec fn spec_join_sp(args: Seq<Seq<char>>) -> Seq<char>
    decreases args.len(),
{
    if args.len() == 0 {
        Seq::empty()
    } else if args.len() == 1 {
        args[0]
    } else {
        args[0] + seq![' '] + spec_join_sp(args.skip(1))
    }
}

/// The dispatch request body before trimming.
pub open spec fn spec_dispatch_raw(dispatcher: Seq<char>, args: Seq<Seq<char>>) -> Seq<char> {
    "dispatch "@ + dispatcher + seq![' '] + spec_join_sp(args)
}

proof fn lemma_join_snoc(s: Seq<Seq<char>>, x: Seq<char>)
    requires
        s.len() >= 1,
    ensures
        spec_join_sp(s.push(x)) == spec_join_sp(s) + seq![' '] + x,
    decreases s.len(),
{
    let sp = s.push(x);
    assert(sp[0] == s[0]);
    if s.len() == 1 {
        assert(sp.skip(1) =~= seq![x]);
        assert(spec_join_sp(sp.skip(1)) == x);
        assert(spec_join_sp(sp) =~= spec_join_sp(s) + seq![' '] + x);
    } else {
        assert(sp.skip(1) =~= s.skip(1).push(x));
        lemma_join_snoc(s.skip(1), x);
        assert(spec_join_sp(sp) == sp[0] + seq![' '] + spec_join_sp(sp.skip(1)));
        assert(spec_join_sp(s) == s[0] + seq![' '] + spec_join_sp(s.skip(1)));
        assert(spec_join_sp(sp) =~= spec_join_sp(s) + seq![' '] + x);
    }
}

/// Joins argument words with single spaces.
fn join_sp(args: &Vec<String>) -> (r: String)
    ensures
        r@ == spec_join_sp(args@.map_values(|a: String| a@)),
{
    let n = args.len();
    let ghost av = args@.map_values(|a: String| a@);
    if n == 0 {
        return String::new();
    }
    let mut out = args[0].clone();
    let mut i: usize = 1;
    proof {
        assert(av.take(1) =~= seq![av[0]]);
        assert(spec_join_sp(av.take(1)) == av[0]);
    }
    while i < n
        invariant
            n == av.len(),
            av == args@.map_values(|a: String| a@),
            1 <= i <= n,
            out@ == spec_join_sp(av.take(i as int)),
        decreases n - i,
    {
        out.append(" ");
        out.append(args[i].as_str());
        proof {
            reveal_strlit(" ");
            assert(" "@ =~= seq![' ']);
            assert(av.take(i as int).push(av[i as int]) =~= av.take(i as int + 1));
            lemma_join_snoc(av.take(i as int), av[i as int]);
            assert(out@ =~= spec_join_sp(av.take(i as int + 1)));
        }
        i = i + 1;
    }
    proof {
        assert(av.take(n as int) =~= av);
    }
    out
}

/// The exact request a dispatch sends: the command word, the
/// dispatcher and its arguments, whitespace-trimmed.
pub fn dispatch_message(dispatcher: &str, args: &Vec<String>) -> (r: String)
    ensures
        r@ == spec_trim(spec_dispatch_raw(dispatcher@, args@.map_values(|a: String| a@))),
{
    let mut body = String::from_str("dispatch ");
    body.append(dispatcher);
    body.append(" ");
    let j = join_sp(args);
    body.append(j.as_str());
    proof {
        reveal_strlit(" ");
        assert(" "@ =~= seq![' ']);
        assert(body@ =~= spec_dispatch_raw(dispatcher@, args@.map_values(|a: String| a@)));
    }
    trim_spaces(body.as_str())
}

/// The batch request: messages framed one by one, joined with `;`,
/// behind the batch sentinel.
pub open spec fn spec_batch_inner(msgs: Seq<Seq<char>>, json: bool) -> Seq<char>
    decreases msgs.len(),
{
    if msgs.len() == 0 {
        Seq::empty()
    } else if msgs.len() == 1 {
        spec_frame(msgs[0], json)
    } else {
        spec_frame(msgs[0], json) + seq![';'] + spec_batch_inner(msgs.skip(1), json)
    }
}

pub open spec fn spec_batch(msgs: Seq<Seq<char>>, json: bool) -> Seq<char> {
    "[[BATCH]]"@ + spec_batch_inner(msgs, json)
}

/// Builds the batch request body.
pub fn batch_payload(msgs: &Vec<String>, json: bool) -> (r: String)
    ensures
        r@ == spec_batch(msgs@.map_values(|m: String| m@), json),
{
    let mut out = String::from_str("[[BATCH]]");
    let n = msgs.len();
    let ghost mv = msgs@.map_values(|m: String| m@);
    let mut i: usize = 0;
    proof {
        assert(mv.skip(0) =~= mv);
    }
    while i < n
        invariant
            n == mv.len(),
            mv == msgs@.map_values(|m: String| m@),
            i <= n,
            out@ + spec_batch_inner(mv.skip(i as int), json) =~= spec_batch(mv, json),
        decreases n - i,
    {
        let f = frame_request(msgs[i].as_str(), json);
        out.append(f.as_str());
        if i + 1 < n {
            out.append(";");
            proof {
                reveal_strlit(";");
            }
        }
        proof {
            assert(mv.skip(i as int)[0] == mv[i as int]);
            assert(mv.skip(i as int).skip(1) =~= mv.skip(i as int + 1));
            assert(out@ + spec_batch_inner(mv.skip(i as int + 1), json) =~= spec_batch(mv, json));
        }
        i = i + 1;
    }
    proof {
        assert(spec_batch_inner(mv.skip(n as int), json) == Seq::<char>::empty());
        assert(out@ + Seq::<char>::empty() =~= out@);
    }
    out
}

/// Whether a dispatch reply means success: exactly the bytes `ok`.
pub fn dispatch_ok(reply: &str) -> (r: bool)
    ensures
        r == (reply@ == "ok"@),
{
    str_eq(reply, "ok")
}

/// The argument vector handed to the compositor's command-line tool
/// to toggle a special workspace.
pub fn cmd_toggle(workspace: &str) -> (r: Vec<String>)
    ensures
        r@.len() == 3,
        r@[0]@ == "dispatch"@,
        r@[1]@ == "togglespecialworkspace"@,
        r@[2]@ == workspace@,
{
    let mut v: Vec<String> = Vec::new();
    v.push(String::from_str("dispatch"));
    v.push(String::from_str("togglespecialworkspace"));
    v.push(workspace.to_owned());
    v
}

} // verus!
