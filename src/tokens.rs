//! Splitting an expression into tokens at runs of white space.
use vstd::prelude::*;
use vstd::string::*;

verus! {

/// Whether `c` has Unicode's White_Space property.
pub uninterp spec fn white_space(c: char) -> bool;

/// Relies on `char::is_whitespace`, which depends on the character alone.
#[verifier::external_body]
fn is_white_space(c: char) -> (r: bool)
    ensures
        r == white_space(c),
{
    c.is_whitespace()
}

/// The word `s[start..i]` if it is not empty.
pub open spec fn pending_word(s: Seq<char>, start: int, i: int) -> Seq<Seq<char>> {
    if start < i {
        seq![s.subrange(start, i)]
    } else {
        seq![]
    }
}

/// The words of `s` from position `i` on, where the word under way began at `start`.
pub open spec fn words_from(s: Seq<char>, start: int, i: int) -> Seq<Seq<char>>
    decreases s.len() - i,
{
    if i >= s.len() {
        pending_word(s, start, i)
    } else if white_space(s[i]) {
        pending_word(s, start, i) + words_from(s, i + 1, i + 1)
    } else {
        words_from(s, start, i + 1)
    }
}

/// The maximal runs of non-white-space characters of `s`, in order.
pub open spec fn words(s: Seq<char>) -> Seq<Seq<char>> {
    words_from(s, 0, 0)
}

pub open spec fn views(v: Seq<String>) -> Seq<Seq<char>> {
    v.map_values(|t: String| t@)
}

/// Splits `expression` into its tokens, the maximal runs of characters
/// that are not white space.
pub fn split_tokens(expression: &str) -> (r: Vec<String>)
    ensures
        views(r@) == words(expression@),
{
    let n = expression.unicode_len();
    let ghost s = expression@;
    let mut out: Vec<String> = Vec::new();
    let mut start: usize = 0;
    let mut i: usize = 0;
    while i < n
        invariant
            n == s.len(),
            s == expression@,
            start <= i <= n,
            views(out@) + words_from(s, start as int, i as int) == words(s),
        decreases n - i,
    {
        let c = expression.get_char(i);
        if is_white_space(c) {
            let ghost before = views(out@);
            if start < i {
                let w = String::from_str(expression.substring_char(start, i));
                out.push(w);
                assert(views(out@) =~= before + pending_word(s, start as int, i as int));
            } else {
                assert(views(out@) =~= before + pending_word(s, start as int, i as int));
            }
            assert(views(out@) + words_from(s, (i + 1) as int, (i + 1) as int) =~= before
                + words_from(s, start as int, i as int));
            start = i + 1;
        }
        i += 1;
    }
    let ghost before = views(out@);
    if start < n {
        let w = String::from_str(expression.substring_char(start, n));
        out.push(w);
    }
    assert(views(out@) =~= before + words_from(s, start as int, n as int));
    out
}

} // verus!
