//! One record of the bundle: `"<separator> <relative path>\n<content>\n"`.
use vstd::prelude::*;
use vstd::string::*;
use vstd::utf8::*;

verus! {

/// The separator as the user wrote it, with each two-character escape `\n`
/// (backslash, `n`) read as a newline.
pub open spec fn unescape_spec(s: Seq<char>) -> Seq<char>
    decreases s.len(),
{
    if s.len() == 0 {
        s
    } else if s.len() >= 2 && s[0] == '\\' && s[1] == 'n' {
        seq!['\n'] + unescape_spec(s.skip(2))
    } else {
        seq![s[0]] + unescape_spec(s.skip(1))
    }
}

/// Reads the escape `\n` in a separator given on one command-line token as
/// a newline, so that a separator may span lines.
pub fn unescape_separator(s: &str) -> (r: String)
    ensures
        r@ == unescape_spec(s@),
{
    let n = s.unicode_len();
    let mut out = String::new();
    let mut i: usize = 0;
    proof {
        reveal_strlit("\n");
        assert(s@.skip(0) =~= s@);
        assert(out@ + s@ =~= s@);
    }
    while i < n
        invariant
            i <= n == s@.len(),
            unescape_spec(s@) == out@ + unescape_spec(s@.skip(i as int)),
        decreases n - i,
    {
        let ghost rest = s@.skip(i as int);
        let ghost before = out@;
        if i + 1 < n && s.get_char(i) == '\\' && s.get_char(i + 1) == 'n' {
            assert(rest.skip(2) =~= s@.skip(i + 2));
            proof {
                reveal_strlit("\n");
            }
            assert(rest[0] == '\\' && rest[1] == 'n');
            assert(unescape_spec(rest) == seq!['\n'] + unescape_spec(rest.skip(2)));
            out.append("\n");
            assert(out@ == before + seq!['\n']);
            assert(out@ + unescape_spec(rest.skip(2)) =~= before + unescape_spec(rest));
            i = i + 2;
        } else {
            let c = s.substring_char(i, i + 1);
            assert(rest.skip(1) =~= s@.skip(i + 1));
            assert(c@ =~= seq![rest[0]]);
            out.append(c);
            assert(out@ + unescape_spec(rest.skip(1)) =~= before + unescape_spec(rest));
            i = i + 1;
        }
        assert(unescape_spec(s@) == out@ + unescape_spec(s@.skip(i as int)));
    }
    out
}

/// The text of the record for the file at `path` whose body is `body`.
pub open spec fn record_text(sep: Seq<char>, path: Seq<char>, body: Seq<char>) -> Seq<char> {
    sep + seq![' '] + path + seq!['\n'] + body + seq!['\n']
}

/// The body that a file's bytes give: their text where they are valid
/// UTF-8, else nothing.
pub open spec fn body_spec(bytes: Seq<u8>) -> Seq<char> {
    if valid_utf8(bytes) {
        decode_utf8(bytes)
    } else {
        Seq::empty()
    }
}

/// Relies on `std::str::from_utf8`: it accepts exactly the valid UTF-8
/// byte strings, and the text it gives is what they encode.
#[verifier::external_body]
fn decode_text(bytes: &[u8]) -> (r: Option<String>)
    ensures
        r is Some <==> valid_utf8(bytes@),
        r is Some ==> r->0@ == decode_utf8(bytes@),
{
    std::str::from_utf8(bytes).ok().map(|s| s.to_string())
}

/// Writes the record for the file at `path` with the text `body`.
pub fn format_record(sep: &str, path: &str, body: &str) -> (r: String)
    ensures
        r@ == record_text(sep@, path@, body@),
{
    proof {
        reveal_strlit(" ");
        reveal_strlit("\n");
    }
    let mut out = String::from_str(sep);
    out.append(" ");
    out.append(path);
    out.append("\n");
    out.append(body);
    out.append("\n");
    assert(out@ =~= record_text(sep@, path@, body@));
    out
}

/// A record of the bundle, and whether the file's bytes were text. A file
/// that is not valid UTF-8 keeps its record, with an empty body.
#[derive(Clone, Debug)]
pub struct Record {
    pub text: String,
    pub is_text: bool,
}

/// The record for the file at `path` whose content is `bytes`.
pub fn make_record(sep: &str, path: &str, bytes: &[u8]) -> (r: Record)
    ensures
        r.is_text == valid_utf8(bytes@),
        r.text@ == record_text(sep@, path@, body_spec(bytes@)),
{
    match decode_text(bytes) {
        Some(body) => Record { text: format_record(sep, path, body.as_str()), is_text: true },
        None => {
            let empty = String::new();
            Record { text: format_record(sep, path, empty.as_str()), is_text: false }
        },
    }
}

} // verus!
