//! Text as sequences of characters: white space, trimming and lines.

use vstd::prelude::*;

verus! {

/// Whether `c` is white space: the characters with the Unicode property
/// `White_Space`.
pub open spec fn is_white_space(c: char) -> bool {
    let n = c as u32;
    ||| 0x09 <= n <= 0x0D
    ||| n == 0x20
    ||| n == 0x85
    ||| n == 0xA0
    ||| n == 0x1680
    ||| 0x2000 <= n <= 0x200A
    ||| n == 0x2028
    ||| n == 0x2029
    ||| n == 0x202F
    ||| n == 0x205F
    ||| n == 0x3000
}

/// Whether `c` is white space.
pub fn white_space(c: char) -> (yes: bool)
    ensures
        yes == is_white_space(c),
{
    let n: u32 = c as u32;
    (0x09 <= n && n <= 0x0D) || n == 0x20 || n == 0x85 || n == 0xA0 || n == 0x1680 || (0x2000 <= n
        && n <= 0x200A) || n == 0x2028 || n == 0x2029 || n == 0x202F || n == 0x205F || n == 0x3000
}

/// The characters of `text`, in order.
pub fn chars_of(text: &str) -> (chars: Vec<char>)
    ensures
        chars@ == text@,
{
    let mut chars: Vec<char> = Vec::new();
    for c in it: text.chars()
        invariant
            it.seq() == text@,
            chars@ == text@.subrange(0, it.index() as int),
    {
        chars.push(c);
        assert(chars@ =~= text@.subrange(0, it.index() + 1));
    }
    assert(text@.subrange(0, text@.len() as int) =~= text@);
    chars
}

/// The number of white-space characters at the front of `s`.
pub open spec fn leading_white(s: Seq<char>) -> nat
    decreases s.len(),
{
    if s.len() > 0 && is_white_space(s[0]) {
        1 + leading_white(s.skip(1))
    } else {
        0
    }
}

/// The number of white-space characters at the back of `s`.
pub open spec fn trailing_white(s: Seq<char>) -> nat
    decreases s.len(),
{
    if s.len() > 0 && is_white_space(s.last()) {
        1 + trailing_white(s.drop_last())
    } else {
        0
    }
}

/// `s` without the white space at its front and at its back.
pub open spec fn trimmed(s: Seq<char>) -> Seq<char> {
    if leading_white(s) == s.len() {
        Seq::empty()
    } else {
        s.subrange(leading_white(s) as int, s.len() - trailing_white(s))
    }
}

/// The white space at the front ends at the first other character.
pub proof fn lemma_leading_white(s: Seq<char>, n: int)
    requires
        0 <= n <= s.len(),
        forall|i: int| 0 <= i < n ==> is_white_space(s[i]),
        n < s.len() ==> !is_white_space(s[n]),
    ensures
        leading_white(s) == n,
    decreases n,
{
    if n > 0 {
        lemma_leading_white(s.skip(1), n - 1);
    }
}

/// The white space at the back begins behind the last other character.
pub proof fn lemma_trailing_white(s: Seq<char>, n: int)
    requires
        0 <= n <= s.len(),
        forall|i: int| s.len() - n <= i < s.len() ==> is_white_space(s[i]),
        n < s.len() ==> !is_white_space(s[s.len() - n - 1]),
    ensures
        trailing_white(s) == n,
    decreases n,
{
    if n > 0 {
        lemma_trailing_white(s.drop_last(), n - 1);
    }
}

/// Where the trimmed form of `chars[from..to]` begins and ends.
pub fn trim_bounds(chars: &[char], from: usize, to: usize) -> (bounds: (usize, usize))
    requires
        from <= to <= chars@.len(),
    ensures
        from <= bounds.0 <= bounds.1 <= to,
        chars@.subrange(bounds.0 as int, bounds.1 as int) == trimmed(
            chars@.subrange(from as int, to as int),
        ),
{
    let ghost s = chars@.subrange(from as int, to as int);
    let mut a: usize = from;
    while a < to && white_space(chars[a])
        invariant
            from <= a <= to <= chars@.len(),
            forall|i: int| from <= i < a ==> is_white_space(chars@[i]),
        decreases to - a,
    {
        a += 1;
    }
    proof {
        lemma_leading_white(s, a - from);
    }
    if a == to {
        assert(chars@.subrange(a as int, a as int) =~= Seq::<char>::empty());
        return (a, a);
    }
    let mut b: usize = to;
    while b > a + 1 && white_space(chars[b - 1])
        invariant
            from <= a < b <= to <= chars@.len(),
            !is_white_space(chars@[a as int]),
            forall|i: int| b <= i < to ==> is_white_space(chars@[i]),
        decreases b,
    {
        b -= 1;
    }
    proof {
        lemma_trailing_white(s, to - b);
        assert(chars@.subrange(a as int, b as int) =~= s.subrange(a - from, s.len() - (to - b)));
    }
    (a, b)
}

/// How many characters stand before the first line feed of `s`, or in all of
/// `s` where it has none.
pub open spec fn line_end(s: Seq<char>) -> int
    decreases s.len(),
{
    if s.len() == 0 || s[0] == '\n' {
        0
    } else {
        1 + line_end(s.skip(1))
    }
}

/// `line` without a carriage return at its end.
pub open spec fn without_return(line: Seq<char>) -> Seq<char> {
    if line.len() > 0 && line.last() == '\r' {
        line.drop_last()
    } else {
        line
    }
}

/// The lines of `text`. A line ends at a line feed, or at a carriage return
/// directly before one; neither belongs to the line. What follows the last
/// line feed is a line as it stands, unless it is empty.
pub open spec fn lines_of(text: Seq<char>) -> Seq<Seq<char>>
    decreases text.len(),
{
    if text.len() == 0 {
        Seq::empty()
    } else if 0 <= line_end(text) < text.len() {
        seq![without_return(text.subrange(0, line_end(text)))] + lines_of(
            text.skip(line_end(text) + 1),
        )
    } else {
        seq![text]
    }
}

/// The first line feed is where no character before it is one.
pub proof fn lemma_line_end(s: Seq<char>, n: int)
    requires
        0 <= n <= s.len(),
        forall|i: int| 0 <= i < n ==> s[i] != '\n',
        n < s.len() ==> s[n] == '\n',
    ensures
        line_end(s) == n,
    decreases n,
{
    if n > 0 {
        lemma_line_end(s.skip(1), n - 1);
    }
}

/// The line that begins at `pos`: where it ends, and where the next begins.
pub fn next_line(chars: &[char], pos: usize) -> (found: (usize, usize))
    requires
        pos < chars@.len(),
    ensures
        pos <= found.0 <= found.1 <= chars@.len(),
        pos < found.1,
        lines_of(chars@.skip(pos as int)) == seq![
            chars@.subrange(pos as int, found.0 as int),
        ] + lines_of(chars@.skip(found.1 as int)),
{
    let ghost s = chars@.skip(pos as int);
    let mut end: usize = pos;
    while end < chars.len() && chars[end] != '\n'
        invariant
            pos <= end <= chars@.len(),
            forall|i: int| pos <= i < end ==> chars@[i] != '\n',
        decreases chars@.len() - end,
    {
        end += 1;
    }
    proof {
        lemma_line_end(s, end - pos);
    }
    if end == chars.len() {
        assert(chars@.subrange(pos as int, end as int) =~= s);
        assert(chars@.skip(end as int) =~= Seq::<char>::empty());
        assert(seq![s] + Seq::<Seq<char>>::empty() =~= seq![s]);
        return (end, end);
    }
    assert(s.skip(end - pos + 1) =~= chars@.skip(end + 1));
    assert(s.subrange(0, end - pos) =~= chars@.subrange(pos as int, end as int));
    if end > pos && chars[end - 1] == '\r' {
        assert(chars@.subrange(pos as int, end - 1) =~= chars@.subrange(
            pos as int,
            end as int,
        ).drop_last());
        (end - 1, end + 1)
    } else {
        (end, end + 1)
    }
}

} // verus!
