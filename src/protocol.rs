use vstd::prelude::*;
use vstd::utf8::{
    decode_utf8, encode_utf8, encode_utf8_decode_utf8, encode_utf8_valid_utf8, valid_utf8,
};

use crate::error::Error;
use crate::text::{is_white, remove_enter, strip_newlines, trim_end, trim_end_inplace};

verus! {

/// The first character of a reply by which a child signals a failure.
pub const ERROR_SIG_CHAR: char = '!';

/// The line sent to a persistent child for `input`.
pub open spec fn request_line(input: Seq<char>) -> Seq<char> {
    strip_newlines(input).push('\n')
}

/// What a one-shot child is fed for `input`.
pub open spec fn one_shot_request(input: Seq<char>) -> Seq<char> {
    strip_newlines(input)
}

/// Whether a reply text signals a failure of the child.
pub open spec fn is_reported(t: Seq<char>) -> bool {
    t.len() > 0 && t[0] == ERROR_SIG_CHAR
}

/// The detail of a failure the child signalled: what follows the sentinel.
pub open spec fn reported_detail(t: Seq<char>) -> Seq<char> {
    t.subrange(1, t.len() as int)
}

/// `r` is what a non-empty reply text `t` stands for.
pub open spec fn text_outcome(t: Seq<char>, r: Result<String, Error>) -> bool {
    if is_reported(t) {
        &&& r is Err
        &&& r->Err_0 is RunSubCmdError
        &&& r->Err_0->RunSubCmdError_0@ == reported_detail(t)
    } else {
        r is Ok && r->Ok_0@ == t
    }
}

/// `r` is the outcome of a reply `line` of `nb` bytes read from a persistent child.
pub open spec fn reply_outcome(nb: usize, line: Seq<char>, r: Result<String, Error>) -> bool {
    if nb == 0 || trim_end(line).len() == 0 {
        r == Err::<String, Error>(Error::EmptyRet)
    } else {
        text_outcome(trim_end(line), r)
    }
}

/// `r` is the outcome of everything a one-shot child wrote, `out`.
pub open spec fn output_outcome(out: Seq<u8>, r: Result<String, Error>) -> bool {
    if out.len() == 0 {
        r == Err::<String, Error>(Error::EmptyRet)
    } else if !valid_utf8(out) {
        r is Err && r->Err_0 is EncodingError
    } else {
        text_outcome(decode_utf8(out), r)
    }
}

/// The request line for a persistent child: `input` without line feeds, then one.
pub fn frame_request(input: &str) -> (r: String)
    ensures
        r@ == request_line(input@),
{
    let line = remove_enter(input);
    proof {
        reveal_strlit("\n");
    }
    let r = line.concat("\n");
    assert(r@ =~= request_line(input@));
    r
}

/// What a one-shot child is fed: `input` without line feeds, and nothing more.
pub fn frame_one_shot(input: &str) -> (r: String)
    ensures
        r@ == one_shot_request(input@),
{
    remove_enter(input)
}

/// Reads a reply text that is not empty: a failure when it starts with the sentinel.
fn classify_text(t: String) -> (r: Result<String, Error>)
    ensures
        text_outcome(t@, r),
{
    if !t.as_str().is_empty() && t.as_str().get_char(0) == ERROR_SIG_CHAR {
        let n = t.as_str().unicode_len();
        let detail = t.as_str().substring_char(1, n).to_owned();
        Err(Error::RunSubCmdError(detail))
    } else {
        Ok(t)
    }
}

/// The outcome of one reply line of `nb` bytes from a persistent child.
pub fn classify_line(nb: usize, line: String) -> (r: Result<String, Error>)
    ensures
        reply_outcome(nb, line@, r),
{
    if nb == 0 {
        return Err(Error::EmptyRet);
    }
    let mut t = line;
    trim_end_inplace(&mut t);
    if t.as_str().is_empty() {
        return Err(Error::EmptyRet);
    }
    classify_text(t)
}

/// Relies on `String::from_utf8`: the bytes are taken as text exactly when they
/// are valid UTF-8, and the text is what they encode.
#[verifier::external_body]
fn decode(bytes: Vec<u8>) -> (r: Result<String, String>)
    ensures
        r is Ok <==> valid_utf8(bytes@),
        r is Ok ==> r->Ok_0@ == decode_utf8(bytes@),
{
    String::from_utf8(bytes).map_err(|e| e.to_string())
}

/// The outcome of everything a one-shot child wrote before it exited.
pub fn classify_output(out: Vec<u8>) -> (r: Result<String, Error>)
    ensures
        output_outcome(out@, r),
{
    if out.len() == 0 {
        return Err(Error::EmptyRet);
    }
    match decode(out) {
        Ok(t) => classify_text(t),
        Err(e) => Err(Error::EncodingError(e)),
    }
}

pub(crate) proof fn lemma_strip_without_newlines(s: Seq<char>)
    requires
        !s.contains('\n'),
    ensures
        strip_newlines(s) == s,
    decreases s.len(),
{
    reveal(Seq::filter);
    if s.len() > 0 {
        assert(!s.drop_last().contains('\n')) by {
            if s.drop_last().contains('\n') {
                let j = choose|j: int| 0 <= j < s.len() - 1 && s.drop_last()[j] == '\n';
                assert(s[j] == '\n');
            }
        }
        lemma_strip_without_newlines(s.drop_last());
        assert(s.last() != '\n') by {
            assert(s[s.len() - 1] == s.last());
        }
        assert(s.drop_last().push(s.last()) =~= s);
    }
}

proof fn lemma_trim_line(t: Seq<char>)
    requires
        t.len() > 0,
        !is_white(t.last()),
    ensures
        trim_end(t.push('\n')) == t,
{
    let l = t.push('\n');
    assert(l.drop_last() =~= t);
    assert(is_white(l.last()));
    assert(trim_end(l) == trim_end(t));
}

/// A child that writes back each line it reads hands every request back
/// unchanged: an input with no line feed, not empty, not starting with the
/// sentinel and not ending in white space comes back as the call's result.
pub proof fn lemma_echo_round_trip(input: Seq<char>, nb: usize, r: Result<String, Error>)
    requires
        !input.contains('\n'),
        input.len() > 0,
        input[0] != ERROR_SIG_CHAR,
        !is_white(input.last()),
        nb > 0,
        reply_outcome(nb, request_line(input), r),
    ensures
        r is Ok,
        r->Ok_0@ == input,
{
    lemma_strip_without_newlines(input);
    lemma_trim_line(input);
}

/// A reply that starts with the sentinel is surfaced as the child's failure,
/// whose detail is the text after the sentinel, both when a persistent worker
/// answers with it as a line and when a one-shot child writes it as its output.
pub proof fn lemma_sentinel_on_every_path(
    t: Seq<char>,
    nb: usize,
    pooled: Result<String, Error>,
    one_shot: Result<String, Error>,
)
    requires
        is_reported(t),
        !is_white(t.last()),
        nb > 0,
        reply_outcome(nb, t.push('\n'), pooled),
        output_outcome(encode_utf8(t), one_shot),
    ensures
        pooled is Err && pooled->Err_0 is RunSubCmdError,
        pooled->Err_0->RunSubCmdError_0@ == reported_detail(t),
        one_shot is Err && one_shot->Err_0 is RunSubCmdError,
        one_shot->Err_0->RunSubCmdError_0@ == reported_detail(t),
{
    lemma_trim_line(t);
    encode_utf8_valid_utf8(t);
    encode_utf8_decode_utf8(t);
    assert(encode_utf8(t).len() > 0) by {
        if encode_utf8(t).len() == 0 {
            assert(encode_utf8(t) =~= Seq::<u8>::empty());
            assert(decode_utf8(Seq::<u8>::empty()).len() == 0);
        }
    }
}

} // verus!
