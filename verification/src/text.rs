//! Plain text scanning: whitespace tokenizing, line splitting, trimming.
//!
//! Commands are whitespace-tokenized into a recipe name plus arguments, and
//! the external tool's introspection output is read line by line. The specs
//! here say exactly which character sequences come out.

use vstd::prelude::*;

verus! {

/// A whitespace character: the Unicode White_Space set, the same notion
/// the standard library's trim uses.
pub open spec fn is_space(c: char) -> bool {
    ||| c == ' '
    ||| c == '\t'
    ||| c == '\n'
    ||| c == '\u{b}'
    ||| c == '\u{c}'
    ||| c == '\r'
    ||| c == '\u{85}'
    ||| c == '\u{a0}'
    ||| c == '\u{1680}'
    ||| c == '\u{2000}'
    ||| c == '\u{2001}'
    ||| c == '\u{2002}'
    ||| c == '\u{2003}'
    ||| c == '\u{2004}'
    ||| c == '\u{2005}'
    ||| c == '\u{2006}'
    ||| c == '\u{2007}'
    ||| c == '\u{2008}'
    ||| c == '\u{2009}'
    ||| c == '\u{200a}'
    ||| c == '\u{2028}'
    ||| c == '\u{2029}'
    ||| c == '\u{202f}'
    ||| c == '\u{205f}'
    ||| c == '\u{3000}'
}

fn space_char(c: char) -> (r: bool)
    ensures
        r == is_space(c),
{
    match c {
        ' ' | '\t' | '\n' | '\u{b}' | '\u{c}' | '\r' | '\u{85}' | '\u{a0}' | '\u{1680}'
        | '\u{2000}' | '\u{2001}' | '\u{2002}' | '\u{2003}' | '\u{2004}' | '\u{2005}'
        | '\u{2006}' | '\u{2007}' | '\u{2008}' | '\u{2009}' | '\u{200a}' | '\u{2028}'
        | '\u{2029}' | '\u{202f}' | '\u{205f}' | '\u{3000}' => true,
        _ => false,
    }
}

/// The whitespace-separated words of `s` from position `i` on, `cur` being
/// the word in progress.
pub open spec fn tokens_from(s: Seq<char>, i: int, cur: Seq<char>) -> Seq<Seq<char>>
    decreases s.len() - i,
{
    if i >= s.len() {
        if cur.len() > 0 {
            seq![cur]
        } else {
            Seq::empty()
        }
    } else if is_space(s[i]) {
        if cur.len() > 0 {
            seq![cur] + tokens_from(s, i + 1, Seq::empty())
        } else {
            tokens_from(s, i + 1, Seq::empty())
        }
    } else {
        tokens_from(s, i + 1, cur.push(s[i]))
    }
}

/// The whitespace-separated words of a command: the recipe name first,
/// then its arguments. Runs of whitespace count as one separator.
pub open spec fn tokens_of(s: Seq<char>) -> Seq<Seq<char>> {
    tokens_from(s, 0, Seq::empty())
}

/// Split a command into its whitespace-separated words.
#[verifier::loop_isolation(false)]
pub fn tokenize(s: &str) -> (r: Vec<String>)
    ensures
        r.deep_view() == tokens_of(s@),
{
    let n = s.unicode_len();
    let mut r: Vec<String> = Vec::new();
    let mut start: usize = 0;
    let mut in_word = false;
    proof {
        assert(r.deep_view() =~= Seq::<Seq<char>>::empty());
        assert(r.deep_view() + tokens_from(s@, 0, Seq::empty()) =~= tokens_of(s@));
    }
    for i in 0..n
        invariant
            n == s@.len(),
            in_word ==> start < i,
            !in_word ==> r.deep_view() + tokens_from(s@, i as int, Seq::empty()) == tokens_of(
                s@,
            ),
            in_word ==> r.deep_view() + tokens_from(
                s@,
                i as int,
                s@.subrange(start as int, i as int),
            ) == tokens_of(s@),
    {
        let c = s.get_char(i);
        let ghost r_dv = r.deep_view();
        let ghost cur = if in_word {
            s@.subrange(start as int, i as int)
        } else {
            Seq::<char>::empty()
        };
        if space_char(c) {
            if in_word {
                let w = s.substring_char(start, i);
                r.push(String::from_str(w));
                in_word = false;
                proof {
                    assert(r.deep_view() =~= r_dv.push(cur));
                    assert(r_dv.push(cur) =~= r_dv + seq![cur]);
                    assert(r.deep_view() + tokens_from(s@, i + 1, Seq::empty()) =~= r_dv + (
                    seq![cur] + tokens_from(s@, i + 1, Seq::empty())));
                }
            }
        } else {
            if !in_word {
                start = i;
                in_word = true;
                proof {
                    assert(s@.subrange(i as int, i + 1) =~= cur.push(s@[i as int]));
                }
            } else {
                proof {
                    assert(s@.subrange(start as int, i + 1) =~= cur.push(s@[i as int]));
                }
            }
        }
    }
    if in_word {
        let ghost r_dv = r.deep_view();
        let ghost cur = s@.subrange(start as int, n as int);
        let w = s.substring_char(start, n);
        r.push(String::from_str(w));
        proof {
            assert(r.deep_view() =~= r_dv.push(cur));
            assert(r_dv.push(cur) =~= r_dv + seq![cur]);
        }
    }
    r
}

/// The lines of `s` from position `i` on, split at newline characters,
/// `cur` being the line in progress.
pub open spec fn lines_from(s: Seq<char>, i: int, cur: Seq<char>) -> Seq<Seq<char>>
    decreases s.len() - i,
{
    if i >= s.len() {
        if cur.len() > 0 {
            seq![cur]
        } else {
            Seq::empty()
        }
    } else if s[i] == '\n' {
        seq![cur] + lines_from(s, i + 1, Seq::empty())
    } else {
        lines_from(s, i + 1, cur.push(s[i]))
    }
}

/// The newline-separated segments of a text; a final newline closes the
/// last line rather than opening an empty one.
pub open spec fn lines_of(s: Seq<char>) -> Seq<Seq<char>> {
    lines_from(s, 0, Seq::empty())
}

/// Split a text into its lines.
#[verifier::loop_isolation(false)]
pub fn split_lines(s: &str) -> (r: Vec<String>)
    ensures
        r.deep_view() == lines_of(s@),
{
    let n = s.unicode_len();
    let mut r: Vec<String> = Vec::new();
    let mut start: usize = 0;
    proof {
        assert(s@.subrange(0, 0) =~= Seq::<char>::empty());
        assert(r.deep_view() =~= Seq::<Seq<char>>::empty());
        assert(r.deep_view() + lines_from(s@, 0, s@.subrange(0, 0)) =~= lines_of(s@));
    }
    for i in 0..n
        invariant
            n == s@.len(),
            start <= i,
            r.deep_view() + lines_from(s@, i as int, s@.subrange(start as int, i as int))
                == lines_of(s@),
    {
        let c = s.get_char(i);
        let ghost r_dv = r.deep_view();
        let ghost cur = s@.subrange(start as int, i as int);
        if c == '\n' {
            let w = s.substring_char(start, i);
            r.push(String::from_str(w));
            start = i + 1;
            proof {
                assert(r.deep_view() =~= r_dv.push(cur));
                assert(r_dv.push(cur) =~= r_dv + seq![cur]);
                assert(s@.subrange(start as int, i + 1) =~= Seq::<char>::empty());
                assert(r.deep_view() + lines_from(s@, i + 1, Seq::empty()) =~= r_dv + (seq![cur]
                    + lines_from(s@, i + 1, Seq::empty())));
            }
        } else {
            proof {
                assert(s@.subrange(start as int, i + 1) =~= cur.push(s@[i as int]));
            }
        }
    }
    if start < n {
        let ghost r_dv = r.deep_view();
        let ghost cur = s@.subrange(start as int, n as int);
        let w = s.substring_char(start, n);
        r.push(String::from_str(w));
        proof {
            assert(r.deep_view() =~= r_dv.push(cur));
            assert(r_dv.push(cur) =~= r_dv + seq![cur]);
        }
    } else {
        proof {
            assert(s@.subrange(start as int, n as int) =~= Seq::<char>::empty());
        }
    }
    r
}

/// `s` with its leading and trailing whitespace removed.
pub open spec fn trim_seq(s: Seq<char>) -> Seq<char>
    decreases s.len(),
{
    if s.len() == 0 {
        s
    } else if is_space(s.first()) {
        trim_seq(s.drop_first())
    } else if is_space(s.last()) {
        trim_seq(s.drop_last())
    } else {
        s
    }
}

/// A whitespace-free window that covers every non-space character of `s`
/// is exactly its trim.
proof fn lemma_trim_range(s: Seq<char>, lo: int, hi: int)
    requires
        0 <= lo <= hi <= s.len(),
        forall|k: int| 0 <= k < lo ==> is_space(#[trigger] s[k]),
        forall|k: int| hi <= k < s.len() ==> is_space(#[trigger] s[k]),
        lo < hi ==> !is_space(s[lo]) && !is_space(s[hi - 1]),
    ensures
        trim_seq(s) == s.subrange(lo, hi),
    decreases s.len(),
{
    if s.len() == 0 {
        assert(s.subrange(lo, hi) =~= s);
    } else if lo == hi {
        assert(is_space(s.first()));
        let t = s.drop_first();
        assert forall|k: int| 0 <= k < t.len() implies is_space(#[trigger] t[k]) by {
            assert(t[k] == s[k + 1]);
        }
        lemma_trim_range(t, 0, 0);
        assert(s.subrange(lo, hi) =~= t.subrange(0, 0));
    } else if lo > 0 {
        assert(is_space(s.first()));
        let t = s.drop_first();
        assert forall|k: int| 0 <= k < lo - 1 implies is_space(#[trigger] t[k]) by {
            assert(t[k] == s[k + 1]);
        }
        assert forall|k: int| hi - 1 <= k < t.len() implies is_space(#[trigger] t[k]) by {
            assert(t[k] == s[k + 1]);
        }
        assert(t[lo - 1] == s[lo] && t[hi - 2] == s[hi - 1]);
        lemma_trim_range(t, lo - 1, hi - 1);
        assert(s.subrange(lo, hi) =~= t.subrange(lo - 1, hi - 1));
    } else if hi < s.len() {
        assert(!is_space(s.first()));
        assert(is_space(s.last()));
        let t = s.drop_last();
        assert forall|k: int| hi <= k < t.len() implies is_space(#[trigger] t[k]) by {
            assert(t[k] == s[k]);
        }
        assert(t[lo] == s[lo] && t[hi - 1] == s[hi - 1]);
        lemma_trim_range(t, lo, hi);
        assert(s.subrange(lo, hi) =~= t.subrange(lo, hi));
    } else {
        assert(!is_space(s.first()));
        assert(!is_space(s.last()));
        assert(s.subrange(lo, hi) =~= s);
    }
}

/// Remove leading and trailing whitespace.
#[verifier::loop_isolation(false)]
pub fn trim_str(s: &str) -> (r: String)
    ensures
        r@ == trim_seq(s@),
{
    let n = s.unicode_len();
    let mut lo: usize = 0;
    while lo < n && space_char(s.get_char(lo))
        invariant
            lo <= n,
            n == s@.len(),
            forall|k: int| 0 <= k < lo ==> is_space(#[trigger] s@[k]),
        decreases n - lo,
    {
        lo = lo + 1;
    }
    let mut hi: usize = n;
    while hi > lo && space_char(s.get_char(hi - 1))
        invariant
            lo <= hi <= n,
            forall|k: int| hi <= k < n ==> is_space(#[trigger] s@[k]),
        decreases hi,
    {
        hi = hi - 1;
    }
    let w = s.substring_char(lo, hi);
    proof {
        lemma_trim_range(s@, lo as int, hi as int);
    }
    String::from_str(w)
}

} // verus!
