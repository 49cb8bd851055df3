//! Text: comparison, searching, trimming and number formatting over sequences
//! of characters.

use vstd::prelude::*;
use vstd::string::StrSliceExecFns;
use vstd::string::StringExecFns;

verus! {

/// Whether two texts hold the same characters.
pub fn same_text(a: &str, b: &str) -> (same: bool)
    ensures
        same == (a@ == b@),
{
    let x: &[u8] = a.as_bytes();
    let y: &[u8] = b.as_bytes();
    proof {
        vstd::utf8::encode_utf8_decode_utf8(a@);
        vstd::utf8::encode_utf8_decode_utf8(b@);
    }
    if x.len() != y.len() {
        return false;
    }
    let mut i: usize = 0;
    while i < x.len()
        invariant
            x@ == vstd::utf8::encode_utf8(a@),
            y@ == vstd::utf8::encode_utf8(b@),
            x@.len() == y@.len(),
            i <= x@.len(),
            forall|j: int| 0 <= j < i ==> x@[j] == y@[j],
        decreases x@.len() - i,
    {
        if x[i] != y[i] {
            return false;
        }
        i += 1;
    }
    assert(x@ =~= y@);
    true
}

/// The characters of a text.
pub fn characters(s: &str) -> (chars: Vec<char>)
    ensures
        chars@ == s@,
{
    let mut chars: Vec<char> = Vec::new();
    for c in iter: s.chars()
        invariant
            chars@ == iter.seq().take(iter.index() as int),
            iter.seq() == s@,
    {
        chars.push(c);
    }
    assert(chars@ =~= s@);
    chars
}

/// The characters with Unicode's `White_Space` property.
pub open spec fn is_white_space(c: char) -> bool {
    let u = c as u32;
    ||| 0x9 <= u <= 0xd
    ||| u == 0x20
    ||| u == 0x85
    ||| u == 0xa0
    ||| u == 0x1680
    ||| 0x2000 <= u <= 0x200a
    ||| u == 0x2028
    ||| u == 0x2029
    ||| u == 0x202f
    ||| u == 0x205f
    ||| u == 0x3000
}

/// A class of characters that can be cut from the ends of a text.
#[derive(Clone, Copy, Debug, PartialEq, Eq, Structural)]
pub enum Edge {
    /// White space.
    Blank,
    /// The backtick, which Markdown puts around code.
    Backtick,
}

impl Edge {
    /// Whether `c` belongs to the class.
    pub open spec fn covers(self, c: char) -> bool {
        match self {
            Edge::Blank => is_white_space(c),
            Edge::Backtick => c == '`',
        }
    }

    fn test(self, c: char) -> (yes: bool)
        ensures
            yes == self.covers(c),
    {
        match self {
            Edge::Blank => {
                let u: u32 = c as u32;
                (0x9 <= u && u <= 0xd) || u == 0x20 || u == 0x85 || u == 0xa0 || u == 0x1680
                    || (0x2000 <= u && u <= 0x200a) || u == 0x2028 || u == 0x2029 || u == 0x202f
                    || u == 0x205f || u == 0x3000
            },
            Edge::Backtick => c == '`',
        }
    }
}

/// `s` without the leading characters of the class.
pub open spec fn cut_front(s: Seq<char>, edge: Edge) -> Seq<char>
    decreases s.len(),
{
    if s.len() > 0 && edge.covers(s[0]) {
        cut_front(s.drop_first(), edge)
    } else {
        s
    }
}

/// `s` without the trailing characters of the class.
pub open spec fn cut_back(s: Seq<char>, edge: Edge) -> Seq<char>
    decreases s.len(),
{
    if s.len() > 0 && edge.covers(s.last()) {
        cut_back(s.drop_last(), edge)
    } else {
        s
    }
}

/// `s` without the leading and the trailing characters of the class.
pub open spec fn cut_ends(s: Seq<char>, edge: Edge) -> Seq<char> {
    cut_back(cut_front(s, edge), edge)
}

/// `s` without leading and trailing white space.
pub open spec fn trimmed(s: Seq<char>) -> Seq<char> {
    cut_ends(s, Edge::Blank)
}

/// Cuts the characters of a class from both ends of a text.
pub fn strip<'a>(s: &'a str, edge: Edge) -> (rest: &'a str)
    ensures
        rest@ == cut_ends(s@, edge),
{
    let chars: Vec<char> = characters(s);
    let mut from: usize = 0;
    assert(s@.skip(0) =~= s@);
    while from < chars.len() && edge.test(chars[from])
        invariant
            chars@ == s@,
            from <= chars@.len(),
            cut_front(s@, edge) == cut_front(s@.skip(from as int), edge),
        decreases chars@.len() - from,
    {
        assert(s@.skip(from as int).drop_first() =~= s@.skip(from + 1));
        from += 1;
    }
    let mut to: usize = chars.len();
    assert(s@.subrange(from as int, to as int) =~= s@.skip(from as int));
    while from < to && edge.test(chars[to - 1])
        invariant
            chars@ == s@,
            from <= to <= chars@.len(),
            cut_ends(s@, edge) == cut_back(s@.subrange(from as int, to as int), edge),
        decreases to,
    {
        assert(s@.subrange(from as int, to as int).drop_last() =~= s@.subrange(
            from as int,
            to - 1,
        ));
        to -= 1;
    }
    s.substring_char(from, to)
}

/// Cuts leading and trailing white space.
pub fn trim<'a>(s: &'a str) -> (rest: &'a str)
    ensures
        rest@ == trimmed(s@),
{
    strip(s, Edge::Blank)
}

/// What stands before the first line feed, or all of `s`.
pub open spec fn first_line_of(s: Seq<char>) -> Seq<char>
    decreases s.len(),
{
    if s.len() == 0 || s[0] == '\n' {
        Seq::empty()
    } else {
        seq![s[0]] + first_line_of(s.drop_first())
    }
}

/// The part of a text before its first line feed.
pub fn first_line<'a>(s: &'a str) -> (line: &'a str)
    ensures
        line@ == first_line_of(s@),
{
    let chars: Vec<char> = characters(s);
    let mut end: usize = 0;
    assert(s@.skip(0) =~= s@);
    assert(s@.take(0) + first_line_of(s@) =~= first_line_of(s@));
    while end < chars.len() && chars[end] != '\n'
        invariant
            chars@ == s@,
            end <= chars@.len(),
            first_line_of(s@) == s@.take(end as int) + first_line_of(s@.skip(end as int)),
        decreases chars@.len() - end,
    {
        proof {
            let rest = s@.skip(end as int);
            assert(rest.drop_first() =~= s@.skip(end + 1));
            assert(s@.take(end as int) + (seq![rest[0]] + first_line_of(rest.drop_first()))
                =~= s@.take(end + 1) + first_line_of(s@.skip(end + 1)));
        }
        end += 1;
    }
    assert(s@.take(end as int) + Seq::<char>::empty() =~= s@.subrange(0, end as int));
    s.substring_char(0, end)
}

/// Whether `part` occurs in `s` at `at`.
pub open spec fn occurs_at(s: Seq<char>, part: Seq<char>, at: int) -> bool {
    0 <= at <= s.len() - part.len() && s.subrange(at, at + part.len()) == part
}

/// Whether `part` occurs somewhere in `s`.
pub open spec fn has_part(s: Seq<char>, part: Seq<char>) -> bool {
    exists|at: int| occurs_at(s, part, at)
}

/// Whether `part` occurs in the text.
pub fn contains_part(s: &str, part: &str) -> (found: bool)
    ensures
        found == has_part(s@, part@),
{
    let chars: Vec<char> = characters(s);
    let wanted: Vec<char> = characters(part);
    if chars.len() < wanted.len() {
        return false;
    }
    let last: usize = chars.len() - wanted.len();
    let mut at: usize = 0;
    loop
        invariant
            chars@ == s@,
            wanted@ == part@,
            last + wanted.len() == chars.len(),
            at <= last,
            forall|i: int| 0 <= i < at ==> !occurs_at(s@, part@, i),
        decreases last - at,
    {
        let mut k: usize = 0;
        while k < wanted.len() && chars[at + k] == wanted[k]
            invariant
                chars@ == s@,
                wanted@ == part@,
                last + wanted.len() == chars.len(),
                at <= last,
                k <= wanted@.len(),
                forall|i: int| 0 <= i < k ==> chars@[at + i] == wanted@[i],
            decreases wanted@.len() - k,
        {
            k += 1;
        }
        if k == wanted.len() {
            assert(s@.subrange(at as int, at + part@.len()) =~= part@);
            assert(occurs_at(s@, part@, at as int));
            return true;
        }
        assert(!occurs_at(s@, part@, at as int)) by {
            assert(s@.subrange(at as int, at + part@.len())[k as int] != part@[k as int]);
        }
        if at == last {
            return false;
        }
        at += 1;
    }
}

/// The lower-case form of an ASCII letter; any other character as it is.
pub open spec fn ascii_lower(c: char) -> char {
    if 'A' <= c && c <= 'Z' {
        ((c as u32 + 32) as u32) as char
    } else {
        c
    }
}

/// Whether two texts are equal up to the case of ASCII letters.
pub open spec fn equal_ignoring_case(a: Seq<char>, b: Seq<char>) -> bool {
    &&& a.len() == b.len()
    &&& forall|i: int| 0 <= i < a.len() ==> ascii_lower(#[trigger] a[i]) == ascii_lower(b[i])
}

fn lower(c: char) -> (l: char)
    ensures
        l == ascii_lower(c),
{
    if 'A' <= c && c <= 'Z' {
        ((c as u8) + 32) as char
    } else {
        c
    }
}

/// Whether two texts are equal up to the case of ASCII letters.
pub fn same_ignoring_case(a: &str, b: &str) -> (same: bool)
    ensures
        same == equal_ignoring_case(a@, b@),
{
    let x: Vec<char> = characters(a);
    let y: Vec<char> = characters(b);
    if x.len() != y.len() {
        return false;
    }
    let mut i: usize = 0;
    while i < x.len()
        invariant
            x@ == a@,
            y@ == b@,
            x@.len() == y@.len(),
            i <= x@.len(),
            forall|j: int| 0 <= j < i ==> ascii_lower(#[trigger] a@[j]) == ascii_lower(b@[j]),
        decreases x@.len() - i,
    {
        if lower(x[i]) != lower(y[i]) {
            return false;
        }
        i += 1;
    }
    true
}

/// The decimal digit for a value below ten.
pub open spec fn digit(d: nat) -> char {
    ((48 + d) as u32) as char
}

/// A natural number in decimal notation.
pub open spec fn decimal(n: nat) -> Seq<char>
    decreases n,
{
    if n < 10 {
        seq![digit(n)]
    } else {
        decimal(n / 10).push(digit(n % 10))
    }
}

/// An integer in decimal notation, with a minus sign where it is negative.
pub open spec fn decimal_int(i: int) -> Seq<char> {
    if i < 0 {
        "-"@ + decimal((-i) as nat)
    } else {
        decimal(i as nat)
    }
}

fn digit_text(d: u64) -> (t: &'static str)
    requires
        d < 10,
    ensures
        t@ == seq![digit(d as nat)],
{
    proof {
        reveal_strlit("0");
        reveal_strlit("1");
        reveal_strlit("2");
        reveal_strlit("3");
        reveal_strlit("4");
        reveal_strlit("5");
        reveal_strlit("6");
        reveal_strlit("7");
        reveal_strlit("8");
        reveal_strlit("9");
    }
    let t: &'static str = match d {
        0 => "0",
        1 => "1",
        2 => "2",
        3 => "3",
        4 => "4",
        5 => "5",
        6 => "6",
        7 => "7",
        8 => "8",
        _ => "9",
    };
    assert(t@ =~= seq![digit(d as nat)]);
    t
}

/// A natural number in decimal notation.
pub fn format_natural(n: u64) -> (t: String)
    ensures
        t@ == decimal(n as nat),
    decreases n,
{
    if n < 10 {
        digit_text(n).to_owned()
    } else {
        let front: String = format_natural(n / 10);
        let t: String = front.concat(digit_text(n % 10));
        assert(t@ =~= decimal((n / 10) as nat).push(digit((n % 10) as nat)));
        t
    }
}

/// An integer in decimal notation.
pub fn format_integer(i: i32) -> (t: String)
    ensures
        t@ == decimal_int(i as int),
{
    if i < 0 {
        let size: i64 = -(i as i64);
        "-".to_owned().concat(format_natural(size as u64).as_str())
    } else {
        format_natural(i as u64)
    }
}

/// Lexicographic order of texts by the code points of their characters.
pub open spec fn precedes(a: Seq<char>, b: Seq<char>) -> bool
    decreases a.len(),
{
    if b.len() == 0 {
        false
    } else if a.len() == 0 {
        true
    } else if a[0] == b[0] {
        precedes(a.drop_first(), b.drop_first())
    } else {
        a[0] < b[0]
    }
}

/// No text precedes itself.
pub proof fn lemma_precedes_irreflexive(a: Seq<char>)
    ensures
        !precedes(a, a),
    decreases a.len(),
{
    if a.len() > 0 {
        lemma_precedes_irreflexive(a.drop_first());
    }
}

/// Of two different texts one precedes the other.
pub proof fn lemma_precedes_total(a: Seq<char>, b: Seq<char>)
    ensures
        precedes(a, b) || precedes(b, a) || a == b,
    decreases a.len(),
{
    if a.len() > 0 && b.len() > 0 && a[0] == b[0] {
        lemma_precedes_total(a.drop_first(), b.drop_first());
        if a.drop_first() == b.drop_first() {
            assert(a =~= seq![a[0]] + a.drop_first());
            assert(b =~= seq![b[0]] + b.drop_first());
        }
    } else if a.len() == 0 && b.len() == 0 {
        assert(a =~= b);
    }
}

/// The order of texts is transitive.
pub proof fn lemma_precedes_transitive(a: Seq<char>, b: Seq<char>, c: Seq<char>)
    requires
        precedes(a, b),
        precedes(b, c),
    ensures
        precedes(a, c),
    decreases a.len(),
{
    if a.len() > 0 && a[0] == b[0] && b[0] == c[0] {
        lemma_precedes_transitive(a.drop_first(), b.drop_first(), c.drop_first());
    }
}

/// The first difference decides.
pub proof fn lemma_precedes_at(a: Seq<char>, b: Seq<char>, at: int)
    requires
        0 <= at < a.len(),
        at < b.len(),
        forall|i: int| 0 <= i < at ==> a[i] == b[i],
        a[at] < b[at],
    ensures
        precedes(a, b),
    decreases at,
{
    if at > 0 {
        assert forall|i: int| 0 <= i < at - 1 implies a.drop_first()[i] == b.drop_first()[i] by {
            assert(a[i + 1] == b[i + 1]);
        }
        lemma_precedes_at(a.drop_first(), b.drop_first(), at - 1);
    }
}

/// Whether `a` precedes `b` in the order of texts.
pub fn text_precedes(a: &str, b: &str) -> (less: bool)
    ensures
        less == precedes(a@, b@),
{
    let x: Vec<char> = characters(a);
    let y: Vec<char> = characters(b);
    let mut i: usize = 0;
    assert(a@.skip(0) =~= a@);
    assert(b@.skip(0) =~= b@);
    while i < x.len() && i < y.len() && x[i] == y[i]
        invariant
            x@ == a@,
            y@ == b@,
            i <= x@.len(),
            i <= y@.len(),
            precedes(a@, b@) == precedes(a@.skip(i as int), b@.skip(i as int)),
        decreases x@.len() - i,
    {
        assert(a@.skip(i as int).drop_first() =~= a@.skip(i + 1));
        assert(b@.skip(i as int).drop_first() =~= b@.skip(i + 1));
        i += 1;
    }
    if i == y.len() {
        false
    } else if i == x.len() {
        true
    } else {
        x[i] < y[i]
    }
}

/// White space is the tab to the carriage return, the blank, the next-line
/// control, and the spaces and separators of Unicode.
pub proof fn law_white_space(c: char)
    ensures
        is_white_space(c) <==> ('\t' <= c <= '\r' || c == ' ' || c == '\u{85}' || c == '\u{a0}' || c
            == '\u{1680}' || '\u{2000}' <= c <= '\u{200a}' || c == '\u{2028}' || c == '\u{2029}' || c
            == '\u{202f}' || c == '\u{205f}' || c == '\u{3000}'),
{
}

proof fn lemma_cut_front(s: Seq<char>, edge: Edge) -> (n: int)
    ensures
        0 <= n <= s.len(),
        cut_front(s, edge) == s.skip(n),
        forall|i: int| 0 <= i < n ==> edge.covers(#[trigger] s[i]),
        n < s.len() ==> !edge.covers(s[n]),
    decreases s.len(),
{
    if s.len() > 0 && edge.covers(s[0]) {
        let rest = s.drop_first();
        let n = lemma_cut_front(rest, edge);
        assert(rest.skip(n) =~= s.skip(n + 1));
        assert forall|i: int| 0 <= i < n + 1 implies edge.covers(#[trigger] s[i]) by {
            if i > 0 {
                assert(rest[i - 1] == s[i]);
            }
        }
        n + 1
    } else {
        assert(s.skip(0) =~= s);
        0
    }
}

proof fn lemma_cut_back(s: Seq<char>, edge: Edge) -> (n: int)
    ensures
        0 <= n <= s.len(),
        cut_back(s, edge) == s.take(n),
        forall|i: int| n <= i < s.len() ==> edge.covers(#[trigger] s[i]),
        n > 0 ==> !edge.covers(s[n - 1]),
    decreases s.len(),
{
    if s.len() > 0 && edge.covers(s.last()) {
        let rest = s.drop_last();
        let n = lemma_cut_back(rest, edge);
        assert(rest.take(n) =~= s.take(n));
        assert forall|i: int| n <= i < s.len() implies edge.covers(#[trigger] s[i]) by {
            if i < rest.len() {
                assert(rest[i] == s[i]);
            }
        }
        n
    } else {
        assert(s.take(s.len() as int) =~= s);
        s.len() as int
    }
}

/// What is left when the ends are cut is one part of the text: everything before
/// it and behind it belongs to the class, and its own ends do not.
pub proof fn law_cut_ends(s: Seq<char>, edge: Edge) -> (span: (int, int))
    ensures
        0 <= span.0 <= span.1 <= s.len(),
        cut_ends(s, edge) == s.subrange(span.0, span.1),
        forall|i: int| 0 <= i < span.0 ==> edge.covers(#[trigger] s[i]),
        forall|i: int| span.1 <= i < s.len() ==> edge.covers(#[trigger] s[i]),
        span.0 < span.1 ==> !edge.covers(s[span.0]) && !edge.covers(s[span.1 - 1]),
{
    let from = lemma_cut_front(s, edge);
    let rest = s.skip(from);
    let n = lemma_cut_back(rest, edge);
    assert(rest.take(n) =~= s.subrange(from, from + n));
    assert forall|i: int| from + n <= i < s.len() implies edge.covers(#[trigger] s[i]) by {
        assert(rest[i - from] == s[i]);
    }
    if n > 0 {
        assert(rest[n - 1] == s[from + n - 1]);
    }
    (from, from + n)
}

proof fn lemma_cut_around(a: Seq<char>, core: Seq<char>, b: Seq<char>, edge: Edge)
    requires
        forall|i: int| 0 <= i < a.len() ==> edge.covers(#[trigger] a[i]),
        forall|i: int| 0 <= i < b.len() ==> edge.covers(#[trigger] b[i]),
        core.len() > 0 ==> !edge.covers(core[0]) && !edge.covers(core.last()),
    ensures
        cut_ends(a + core + b, edge) == core,
{
    let s = a + core + b;
    let span = law_cut_ends(s, edge);
    if core.len() > 0 {
        assert(s[a.len() as int] == core[0]);
        assert(s[a.len() + core.len() - 1] == core.last());
        assert(span.0 <= a.len());
        assert(span.1 >= a.len() + core.len());
        if span.0 < a.len() {
            assert(s[span.0] == a[span.0]);
        }
        if span.1 > a.len() + core.len() {
            assert(s[span.1 - 1] == b[span.1 - 1 - a.len() - core.len()]);
        }
    } else if span.0 < span.1 {
        if span.0 < a.len() {
            assert(s[span.0] == a[span.0]);
        } else {
            assert(s[span.0] == b[span.0 - a.len()]);
        }
    }
    assert(s.subrange(span.0, span.1) =~= core);
}

/// White space around a text is what is trimmed, and nothing else.
pub proof fn law_trimmed(a: Seq<char>, core: Seq<char>, b: Seq<char>)
    requires
        forall|i: int| 0 <= i < a.len() ==> is_white_space(#[trigger] a[i]),
        forall|i: int| 0 <= i < b.len() ==> is_white_space(#[trigger] b[i]),
        core.len() > 0 ==> !is_white_space(core[0]) && !is_white_space(core.last()),
    ensures
        trimmed(a + core + b) == core,
{
    assert forall|i: int| 0 <= i < a.len() implies Edge::Blank.covers(#[trigger] a[i]) by {}
    assert forall|i: int| 0 <= i < b.len() implies Edge::Blank.covers(#[trigger] b[i]) by {}
    lemma_cut_around(a, core, b, Edge::Blank);
}

/// Every text is a trimmed text between white space.
pub proof fn law_trimmed_part(s: Seq<char>) -> (parts: (Seq<char>, Seq<char>))
    ensures
        s == parts.0 + trimmed(s) + parts.1,
        forall|i: int| 0 <= i < parts.0.len() ==> is_white_space(#[trigger] parts.0[i]),
        forall|i: int| 0 <= i < parts.1.len() ==> is_white_space(#[trigger] parts.1[i]),
        trimmed(s).len() > 0 ==> !is_white_space(trimmed(s)[0]) && !is_white_space(
            trimmed(s).last(),
        ),
{
    let span = law_cut_ends(s, Edge::Blank);
    let a = s.take(span.0);
    let b = s.skip(span.1);
    assert(s =~= a + trimmed(s) + b);
    assert forall|i: int| 0 <= i < a.len() implies is_white_space(#[trigger] a[i]) by {
        assert(Edge::Blank.covers(s[i]));
    }
    assert forall|i: int| 0 <= i < b.len() implies is_white_space(#[trigger] b[i]) by {
        assert(Edge::Blank.covers(s[span.1 + i]));
    }
    (a, b)
}

/// Backticks around a text are what is cut with their class, and nothing else.
pub proof fn law_backticks_cut(a: Seq<char>, core: Seq<char>, b: Seq<char>)
    requires
        forall|i: int| 0 <= i < a.len() ==> (#[trigger] a[i]) == '`',
        forall|i: int| 0 <= i < b.len() ==> (#[trigger] b[i]) == '`',
        core.len() > 0 ==> core[0] != '`' && core.last() != '`',
    ensures
        cut_ends(a + core + b, Edge::Backtick) == core,
{
    assert forall|i: int| 0 <= i < a.len() implies Edge::Backtick.covers(#[trigger] a[i]) by {}
    assert forall|i: int| 0 <= i < b.len() implies Edge::Backtick.covers(#[trigger] b[i]) by {}
    lemma_cut_around(a, core, b, Edge::Backtick);
}

/// The first line is the text up to its first line feed: a prefix without a line
/// feed that is all of the text or is followed by a line feed.
pub proof fn law_first_line(s: Seq<char>)
    ensures
        first_line_of(s).len() <= s.len(),
        first_line_of(s) == s.take(first_line_of(s).len() as int),
        forall|i: int| 0 <= i < first_line_of(s).len() ==> (#[trigger] s[i]) != '\n',
        first_line_of(s).len() < s.len() ==> s[first_line_of(s).len() as int] == '\n',
    decreases s.len(),
{
    if s.len() > 0 && s[0] != '\n' {
        let rest = s.drop_first();
        let line = first_line_of(rest);
        law_first_line(rest);
        assert(first_line_of(s) =~= s.take((line.len() + 1) as int));
        assert forall|i: int| 0 <= i < line.len() + 1 implies (#[trigger] s[i]) != '\n' by {
            if i > 0 {
                assert(rest[i - 1] == s[i]);
            }
        }
        if line.len() < rest.len() {
            assert(rest[line.len() as int] == s[(line.len() + 1) as int]);
        }
    } else {
        assert(s.take(0) =~= Seq::<char>::empty());
    }
}

/// What follows a line without a line feed and a line feed does not matter to the
/// first line.
pub proof fn law_first_line_before(line: Seq<char>, rest: Seq<char>)
    requires
        forall|i: int| 0 <= i < line.len() ==> (#[trigger] line[i]) != '\n',
    ensures
        first_line_of(line) == line,
        first_line_of(line.push('\n') + rest) == line,
{
    law_first_line(line);
    let first = first_line_of(line);
    if first.len() < line.len() {
        assert(line[first.len() as int] == '\n');
    }
    assert(first =~= line);
    let s = line.push('\n') + rest;
    law_first_line(s);
    let n = first_line_of(s).len() as int;
    assert(s[line.len() as int] == '\n');
    if n < line.len() {
        assert(s[n] == line[n]);
    }
    if n > line.len() {
        assert(s[line.len() as int] != '\n');
    }
    assert(s.take(n) =~= line);
}

/// A text has a part exactly where it is put together of something before the
/// part, the part, and something behind it.
pub proof fn law_has_part(s: Seq<char>, part: Seq<char>)
    ensures
        has_part(s, part) <==> exists|a: Seq<char>, b: Seq<char>| s == #[trigger] (a + part + b),
{
    if has_part(s, part) {
        let at = choose|at: int| occurs_at(s, part, at);
        let a = s.take(at);
        let b = s.skip(at + part.len());
        assert(s =~= a + part + b);
    }
    if exists|a: Seq<char>, b: Seq<char>| s == #[trigger] (a + part + b) {
        let (a, b) = choose|a: Seq<char>, b: Seq<char>| s == #[trigger] (a + part + b);
        assert(s.subrange(a.len() as int, (a.len() + part.len()) as int) =~= part);
        assert(occurs_at(s, part, a.len() as int));
    }
}

/// Texts are equal up to case exactly where they have one length and, place by
/// place, the same character or an ASCII letter in its two cases.
pub proof fn law_equal_ignoring_case(a: Seq<char>, b: Seq<char>)
    ensures
        equal_ignoring_case(a, b) <==> a.len() == b.len() && forall|i: int|
            0 <= i < a.len() ==> (#[trigger] a[i]) == b[i] || ('A' <= a[i] <= 'Z' && b[i] as int
                == a[i] as int + 32) || ('A' <= b[i] <= 'Z' && a[i] as int == b[i] as int + 32),
{
    if equal_ignoring_case(a, b) {
        assert forall|i: int| 0 <= i < a.len() implies (#[trigger] a[i]) == b[i] || ('A' <= a[i]
            <= 'Z' && b[i] as int == a[i] as int + 32) || ('A' <= b[i] <= 'Z' && a[i] as int
            == b[i] as int + 32) by {
            assert(ascii_lower(a[i]) == ascii_lower(b[i]));
        }
    }
    if a.len() == b.len() && forall|i: int|
        0 <= i < a.len() ==> (#[trigger] a[i]) == b[i] || ('A' <= a[i] <= 'Z' && b[i] as int
            == a[i] as int + 32) || ('A' <= b[i] <= 'Z' && a[i] as int == b[i] as int + 32) {
        assert forall|i: int| 0 <= i < a.len() implies ascii_lower(#[trigger] a[i])
            == ascii_lower(b[i]) by {}
    }
}

/// The number that a text of digits stands for.
pub open spec fn number_of(s: Seq<char>) -> int
    decreases s.len(),
{
    if s.len() == 0 {
        0
    } else {
        10 * number_of(s.drop_last()) + (s.last() as int - '0' as int)
    }
}

/// Decimal notation holds digits alone, starts with no zero but for zero itself,
/// and stands for the number.
pub proof fn law_decimal(n: nat)
    ensures
        number_of(decimal(n)) == n,
        decimal(n).len() > 0,
        forall|i: int| 0 <= i < decimal(n).len() ==> '0' <= (#[trigger] decimal(n)[i]) <= '9',
        n > 0 ==> decimal(n)[0] != '0',
        n == 0 ==> decimal(n).len() == 1,
    decreases n,
{
    if n < 10 {
        let s = decimal(n);
        assert(s.drop_last() =~= Seq::<char>::empty());
        assert(number_of(s.drop_last()) == 0);
    } else {
        law_decimal(n / 10);
        let front = decimal(n / 10);
        let s = decimal(n);
        assert(s == front.push(digit(n % 10)));
        assert(s.drop_last() =~= front);
        assert forall|i: int| 0 <= i < s.len() implies '0' <= (#[trigger] s[i]) <= '9' by {
            if i < front.len() {
                assert(s[i] == front[i]);
            }
        }
    }
}

/// A negative integer is a minus sign before the notation of its size.
pub proof fn law_decimal_int(n: nat)
    ensures
        decimal_int(n as int) == decimal(n),
        n > 0 ==> decimal_int(-(n as int)) == seq!['-'] + decimal(n),
{
    reveal_strlit("-");
    assert("-"@ =~= seq!['-']);
}

/// Whether the texts agree before `at` and there the first ends or has the
/// smaller character.
pub open spec fn decided_at(a: Seq<char>, b: Seq<char>, at: int) -> bool {
    &&& 0 <= at <= a.len()
    &&& at < b.len()
    &&& forall|i: int| 0 <= i < at ==> (#[trigger] a[i]) == b[i]
    &&& at < a.len() ==> a[at] < b[at]
}

/// One text precedes another exactly where it is a proper beginning of it or has
/// the smaller character at the first difference.
pub proof fn law_precedes(a: Seq<char>, b: Seq<char>)
    ensures
        precedes(a, b) <==> exists|at: int| decided_at(a, b, at),
    decreases a.len(),
{
    if a.len() > 0 && b.len() > 0 && a[0] == b[0] {
        let x = a.drop_first();
        let y = b.drop_first();
        law_precedes(x, y);
        if precedes(x, y) {
            let at = choose|at: int| decided_at(x, y, at);
            assert forall|i: int| 0 <= i < at + 1 implies (#[trigger] a[i]) == b[i] by {
                if i > 0 {
                    assert(x[i - 1] == y[i - 1]);
                }
            }
            assert(decided_at(a, b, at + 1));
        }
        if exists|at: int| decided_at(a, b, at) {
            let at = choose|at: int| decided_at(a, b, at);
            assert forall|i: int| 0 <= i < at - 1 implies (#[trigger] x[i]) == y[i] by {
                assert(a[i + 1] == b[i + 1]);
            }
            assert(decided_at(x, y, at - 1));
        }
    } else {
        if precedes(a, b) {
            assert(decided_at(a, b, 0));
        }
        if exists|at: int| decided_at(a, b, at) {
            let at = choose|at: int| decided_at(a, b, at);
            if at > 0 {
                assert(a[0] == b[0]);
            }
        }
    }
}

} // verus!
