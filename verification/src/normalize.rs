use vstd::prelude::*;

use crate::line_endings::LineEndings;
use crate::strutil::{contains_char, find_char};

verus! {

/// The text with every `\r` that immediately precedes a `\n` removed;
/// isolated `\r` characters are preserved.
pub open spec fn normalized(s: Seq<char>) -> Seq<char>
    decreases s.len(),
{
    if s.len() == 0 {
        Seq::empty()
    } else if s.len() >= 2 && s[0] == '\r' && s[1] == '\n' {
        seq!['\n'] + normalized(s.skip(2))
    } else {
        seq![s[0]] + normalized(s.skip(1))
    }
}

/// A text without `\r` is already normalized.
pub proof fn lemma_normalized_no_cr(s: Seq<char>)
    requires
        !contains_char(s, '\r'),
    ensures
        normalized(s) == s,
    decreases s.len(),
{
    if s.len() == 0 {
        assert(normalized(s) =~= s);
    } else {
        assert(s[0] != '\r');
        assert(!contains_char(s.skip(1), '\r')) by {
            if contains_char(s.skip(1), '\r') {
                let i = choose|i: int| 0 <= i < s.skip(1).len() && s.skip(1)[i] == '\r';
                assert(s[i + 1] == '\r');
            }
        }
        lemma_normalized_no_cr(s.skip(1));
        assert(normalized(s) =~= s);
    }
}

/// The line-ending flavor a text is recorded with: `Dos` when it
/// contains any `\r`, `Unix` otherwise.
pub open spec fn flavor_of(s: Seq<char>) -> LineEndings {
    if contains_char(s, '\r') {
        LineEndings::Dos
    } else {
        LineEndings::Unix
    }
}

/// Replaces every `\r\n` with `\n` in place.
///
/// Returns `LineEndings::Dos` when the text contained any `\r`, and
/// `LineEndings::Unix` otherwise; in the latter case the text is unchanged.
pub fn normalize_newlines(src: &mut String) -> (r: LineEndings)
    ensures
        final(src)@ == normalized(old(src)@),
        r == flavor_of(old(src)@),
{
    let ghost s = src@;
    let n: usize = src.as_str().unicode_len();
    let cr_at: usize = find_char(src.as_str(), '\r');
    if cr_at == n {
        proof {
            if contains_char(s, '\r') {
                let w = choose|w: int| 0 <= w < s.len() && s[w] == '\r';
                assert(s[w] != '\r');
            }
            lemma_normalized_no_cr(s);
        }
        return LineEndings::Unix;
    }
    let mut out: String = String::new();
    let mut i: usize = 0;
    proof {
        assert(s.skip(0) =~= s);
        assert(out@ + normalized(s) =~= normalized(s));
    }
    while i < n
        invariant
            0 <= i <= n,
            n == s.len(),
            src@ == s,
            normalized(s) == out@ + normalized(s.skip(i as int)),
        decreases n - i,
    {
        let ghost rest = s.skip(i as int);
        proof {
            assert(rest.len() == n - i);
            assert(rest[0] == s[i as int]);
            if rest.len() >= 2 {
                assert(rest[1] == s[i + 1]);
            }
        }
        let ghost out0 = out@;
        let c = src.as_str().get_char(i);
        if c == '\r' && i + 1 < n && src.as_str().get_char(i + 1) == '\n' {
            out.push('\n');
            proof {
                assert(rest.skip(2) =~= s.skip(i + 2));
                assert(out@ + normalized(s.skip(i + 2)) =~= out0 + (seq!['\n'] + normalized(
                    rest.skip(2),
                )));
            }
            i = i + 2;
        } else {
            out.push(c);
            proof {
                assert(rest.skip(1) =~= s.skip(i + 1));
                assert(out@ + normalized(s.skip(i + 1)) =~= out0 + (seq![rest[0]] + normalized(
                    rest.skip(1),
                )));
            }
            i = i + 1;
        }
    }
    proof {
        assert(s.skip(n as int) =~= Seq::empty());
        assert(normalized(s) =~= out@);
        assert(s[cr_at as int] == '\r');
    }
    *src = out;
    LineEndings::Dos
}

/// The first character the normalizer yields for a non-empty text.
pub proof fn lemma_normalized_head(s: Seq<char>)
    requires
        s.len() > 0,
    ensures
        normalized(s).len() > 0,
        normalized(s)[0] == (if s.len() >= 2 && s[0] == '\r' && s[1] == '\n' {
            '\n'
        } else {
            s[0]
        }),
{
}

/// No two adjacent `\r` characters anywhere in the text.
pub open spec fn no_double_cr(s: Seq<char>) -> bool {
    forall|i: int| 0 <= i < s.len() - 1 ==> !(#[trigger] s[i] == '\r' && s[i + 1] == '\r')
}

/// No `\r` immediately followed by `\n` anywhere in the text.
pub open spec fn no_crlf(s: Seq<char>) -> bool {
    forall|i: int| 0 <= i < s.len() - 1 ==> !(#[trigger] s[i] == '\r' && s[i + 1] == '\n')
}

/// Unless the input runs two `\r` together, the normalized text never
/// contains the pair `\r\n`.
///
/// The restriction is needed: removing the `\r` of a `\r\n` can expose a
/// preceding isolated `\r` to the `\n`, as in a text that reads `\r\r\n`.
pub proof fn lemma_normalized_no_crlf(s: Seq<char>)
    requires
        no_double_cr(s),
    ensures
        no_crlf(normalized(s)),
    decreases s.len(),
{
    if s.len() == 0 {
    } else if s.len() >= 2 && s[0] == '\r' && s[1] == '\n' {
        let rest = s.skip(2);
        assert(no_double_cr(rest)) by {
            assert forall|i: int| 0 <= i < rest.len() - 1 implies !(#[trigger] rest[i] == '\r' && rest[i + 1] == '\r') by {
                assert(rest[i] == s[i + 2] && rest[i + 1] == s[i + 3]);
            }
        }
        lemma_normalized_no_crlf(rest);
        let r = normalized(s);
        assert forall|i: int| 0 <= i < r.len() - 1 implies !(#[trigger] r[i] == '\r' && r[i + 1] == '\n') by {
            if i == 0 {
                assert(r[0] == '\n');
            } else {
                assert(r[i] == normalized(rest)[i - 1] && r[i + 1] == normalized(rest)[i]);
            }
        }
    } else {
        let rest = s.skip(1);
        assert(no_double_cr(rest)) by {
            assert forall|i: int| 0 <= i < rest.len() - 1 implies !(#[trigger] rest[i] == '\r' && rest[i + 1] == '\r') by {
                assert(rest[i] == s[i + 1] && rest[i + 1] == s[i + 2]);
            }
        }
        lemma_normalized_no_crlf(rest);
        let r = normalized(s);
        assert forall|i: int| 0 <= i < r.len() - 1 implies !(#[trigger] r[i] == '\r' && r[i + 1] == '\n') by {
            if i == 0 {
                if s[0] == '\r' {
                    assert(rest.len() > 0);
                    lemma_normalized_head(rest);
                    if rest.len() >= 2 && rest[0] == '\r' && rest[1] == '\n' {
                        assert(s[0] == '\r' && s[1] == '\r');
                    }
                    assert(r[1] == normalized(rest)[0]);
                    assert(normalized(rest)[0] == rest[0]);
                    assert(rest[0] == s[1]);
                    assert(s[1] != '\n');
                }
            } else {
                assert(r[i] == normalized(rest)[i - 1] && r[i + 1] == normalized(rest)[i]);
            }
        }
    }
}

} // verus!
