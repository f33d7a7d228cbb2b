//! The content codec.
//!
//! A ticket's stored text is decoded as: everything up to the first line
//! terminator, trimmed, is the title; everything after the terminator,
//! trimmed, is the message, and an empty remainder means the message is
//! absent. No blank separator line is required — only the first line matters
//! for the title. Trimming removes the whitespace characters (the Unicode
//! White_Space set) from both ends. Writes store the supplied content
//! verbatim, so decoding happens on read alone.
use vstd::prelude::*;

verus! {

/// The characters trimming removes: the Unicode White_Space set.
pub open spec fn is_space(c: char) -> bool {
    ||| c == '\u{0009}'
    ||| c == '\u{000A}'
    ||| c == '\u{000B}'
    ||| c == '\u{000C}'
    ||| c == '\u{000D}'
    ||| c == ' '
    ||| c == '\u{0085}'
    ||| c == '\u{00A0}'
    ||| c == '\u{1680}'
    ||| ('\u{2000}' <= c && c <= '\u{200A}')
    ||| c == '\u{2028}'
    ||| c == '\u{2029}'
    ||| c == '\u{202F}'
    ||| c == '\u{205F}'
    ||| c == '\u{3000}'
}

/// `s` without its leading blank characters.
pub open spec fn spec_trim_front(s: Seq<char>) -> Seq<char>
    decreases s.len(),
{
    if s.len() > 0 && is_space(s[0]) {
        spec_trim_front(s.drop_first())
    } else {
        s
    }
}

/// `s` without its trailing blank characters.
pub open spec fn spec_trim_back(s: Seq<char>) -> Seq<char>
    decreases s.len(),
{
    if s.len() > 0 && is_space(s.last()) {
        spec_trim_back(s.drop_last())
    } else {
        s
    }
}

/// `s` without blank characters on either end.
pub open spec fn spec_trim(s: Seq<char>) -> Seq<char> {
    spec_trim_back(spec_trim_front(s))
}

/// The position of the first line terminator; `s.len()` when there is none.
pub open spec fn line_index(s: Seq<char>) -> int
    decreases s.len(),
{
    if s.len() == 0 {
        0
    } else if s[0] == '\n' {
        0
    } else {
        1 + line_index(s.subrange(1, s.len() as int))
    }
}

/// The title stored content decodes to.
pub open spec fn spec_title(content: Seq<char>) -> Seq<char> {
    spec_trim(content.subrange(0, line_index(content)))
}

/// The message stored content decodes to; absent when nothing, or only
/// blank characters, follow the first line terminator.
pub open spec fn spec_message(content: Seq<char>) -> Option<Seq<char>> {
    if line_index(content) < content.len() {
        let rest = spec_trim(content.subrange(line_index(content) + 1, content.len() as int));
        if rest.len() == 0 {
            None
        } else {
            Some(rest)
        }
    } else {
        None
    }
}

/// Whether `c` is one of the characters trimming removes.
pub fn is_space_char(c: char) -> (r: bool)
    ensures
        r == is_space(c),
{
    c == '\u{0009}' || c == '\u{000A}' || c == '\u{000B}' || c == '\u{000C}' || c == '\u{000D}'
        || c == ' ' || c == '\u{0085}' || c == '\u{00A0}' || c == '\u{1680}' || ('\u{2000}' <= c
        && c <= '\u{200A}') || c == '\u{2028}' || c == '\u{2029}' || c == '\u{202F}'
        || c == '\u{205F}' || c == '\u{3000}'
}

/// Trimming a front-trimmed string from the back trims it fully.
proof fn lemma_trim_front_skip(s: Seq<char>, a: int)
    requires
        0 <= a <= s.len(),
        forall|j: int| 0 <= j < a ==> is_space(s[j]),
    ensures
        spec_trim_front(s) == spec_trim_front(s.subrange(a, s.len() as int)),
    decreases a,
{
    if a > 0 {
        assert(s.len() > 0 && is_space(s[0]));
        let t = s.drop_first();
        assert(spec_trim_front(s) == spec_trim_front(t));
        assert forall|j: int| 0 <= j < a - 1 implies is_space(t[j]) by {
            assert(t[j] == s[j + 1]);
        }
        lemma_trim_front_skip(t, a - 1);
        assert(t.subrange(a - 1, t.len() as int) =~= s.subrange(a, s.len() as int));
    } else {
        assert(s.subrange(0, s.len() as int) =~= s);
    }
}

/// Dropping trailing blanks of `s` leaves its prefix of length `b`.
proof fn lemma_trim_back_take(s: Seq<char>, b: int)
    requires
        0 <= b <= s.len(),
        forall|j: int| b <= j < s.len() ==> is_space(s[j]),
    ensures
        spec_trim_back(s) == spec_trim_back(s.subrange(0, b)),
    decreases s.len() - b,
{
    if b < s.len() {
        assert(is_space(s.last()));
        let t = s.drop_last();
        assert(spec_trim_back(s) == spec_trim_back(t));
        lemma_trim_back_take(t, b);
        assert(t.subrange(0, b) =~= s.subrange(0, b));
    } else {
        assert(s.subrange(0, s.len() as int) =~= s);
    }
}

/// Removes blank characters from both ends of `s`.
pub fn trim(s: &str) -> (r: String)
    ensures
        r@ == spec_trim(s@),
{
    let n = s.unicode_len();
    let mut a: usize = 0;
    while a < n && is_space_char(s.get_char(a))
        invariant
            n == s@.len(),
            a <= n,
            forall|j: int| 0 <= j < a ==> is_space(s@[j]),
        decreases n - a,
    {
        a = a + 1;
    }
    proof {
        lemma_trim_front_skip(s@, a as int);
        if a < n {
            assert(!is_space(s@.subrange(a as int, n as int)[0]));
        }
        assert(spec_trim_front(s@) == s@.subrange(a as int, n as int));
    }
    let mut b: usize = n;
    while b > a && is_space_char(s.get_char(b - 1))
        invariant
            n == s@.len(),
            a <= b <= n,
            forall|j: int| b <= j < n ==> is_space(s@[j]),
        decreases b,
    {
        b = b - 1;
    }
    proof {
        let front = s@.subrange(a as int, n as int);
        assert forall|j: int| b - a <= j < front.len() implies is_space(front[j]) by {
            assert(front[j] == s@[j + a]);
        }
        lemma_trim_back_take(front, b - a);
        assert(front.subrange(0, b - a) =~= s@.subrange(a as int, b as int));
        if b > a {
            assert(s@.subrange(a as int, b as int).last() == s@[b - 1]);
        }
        assert(spec_trim_back(s@.subrange(a as int, b as int)) == s@.subrange(
            a as int,
            b as int,
        ));
        assert(spec_trim(s@) == s@.subrange(a as int, b as int));
    }
    String::from_str(s.substring_char(a, b))
}

/// `line_index` points at the first line terminator.
proof fn lemma_line_index_of_first(s: Seq<char>, i: int)
    requires
        0 <= i < s.len(),
        s[i] == '\n',
        forall|j: int| 0 <= j < i ==> s[j] != '\n',
    ensures
        line_index(s) == i,
    decreases i,
{
    if i > 0 {
        let t = s.subrange(1, s.len() as int);
        assert(t[i - 1] == s[i]);
        assert forall|j: int| 0 <= j < i - 1 implies t[j] != '\n' by {
            assert(t[j] == s[j + 1]);
        }
        lemma_line_index_of_first(t, i - 1);
    }
}

/// Without a line terminator, `line_index` is the length.
proof fn lemma_line_index_none(s: Seq<char>)
    requires
        forall|j: int| 0 <= j < s.len() ==> s[j] != '\n',
    ensures
        line_index(s) == s.len(),
    decreases s.len(),
{
    if s.len() > 0 {
        let t = s.subrange(1, s.len() as int);
        assert forall|j: int| 0 <= j < t.len() implies t[j] != '\n' by {
            assert(t[j] == s[j + 1]);
        }
        lemma_line_index_none(t);
    }
}

/// Decodes stored content into its title and optional message.
pub fn decode_content(content: &str) -> (r: (String, Option<String>))
    ensures
        r.0@ == spec_title(content@),
        r.1.deep_view() == spec_message(content@),
{
    let n = content.unicode_len();
    let mut i: usize = 0;
    while i < n && content.get_char(i) != '\n'
        invariant
            n == content@.len(),
            i <= n,
            forall|j: int| 0 <= j < i ==> content@[j] != '\n',
        decreases n - i,
    {
        i = i + 1;
    }
    proof {
        if i < n {
            lemma_line_index_of_first(content@, i as int);
        } else {
            lemma_line_index_none(content@);
        }
    }
    let title = trim(content.substring_char(0, i));
    let message = if i < n {
        let rest = trim(content.substring_char(i + 1, n));
        if rest.unicode_len() == 0 {
            None
        } else {
            Some(rest)
        }
    } else {
        None
    };
    (title, message)
}

} // verus!
