//! Pieces of text: trimming, joining, lines, decimal and hexadecimal digits.

use vstd::prelude::*;
use vstd::string::*;

verus! {

/// The characters that Unicode counts as white space.
pub open spec fn is_white_space(c: char) -> bool {
    let n = c as int;
    ||| 0x09 <= n <= 0x0d
    ||| n == 0x20
    ||| n == 0x85
    ||| n == 0xa0
    ||| n == 0x1680
    ||| 0x2000 <= n <= 0x200a
    ||| n == 0x2028
    ||| n == 0x2029
    ||| n == 0x202f
    ||| n == 0x205f
    ||| n == 0x3000
}

/// `s` without the white space it starts with.
pub open spec fn without_leading(s: Seq<char>) -> Seq<char>
    decreases s.len(),
{
    if s.len() > 0 && is_white_space(s.first()) {
        without_leading(s.drop_first())
    } else {
        s
    }
}

/// `s` without the white space it ends with.
pub open spec fn without_trailing(s: Seq<char>) -> Seq<char>
    decreases s.len(),
{
    if s.len() > 0 && is_white_space(s.last()) {
        without_trailing(s.drop_last())
    } else {
        s
    }
}

/// `s` without the white space around it.
pub open spec fn trimmed(s: Seq<char>) -> Seq<char> {
    without_trailing(without_leading(s))
}

/// Wraps `str::trim`: the string without leading and trailing white space, where white space is
/// what has the Unicode property `White_Space`.
#[verifier::external_body]
pub(crate) fn trim(s: &str) -> (inner: &str)
    ensures
        inner@ == trimmed(s@),
{
    s.trim()
}

/// The strings of the list one after the other, with `separator` between them.
pub open spec fn joined(list: Seq<Seq<char>>, separator: Seq<char>) -> Seq<char>
    decreases list.len(),
{
    if list.len() == 0 {
        Seq::empty()
    } else if list.len() == 1 {
        list[0]
    } else {
        joined(list.drop_last(), separator) + separator + list.last()
    }
}

/// Puts `separator` between the strings of the list.
pub(crate) fn join(list: &Vec<&str>, separator: &str) -> (text: String)
    ensures
        text@ == joined(list.deep_view(), separator@),
{
    let ghost all = list.deep_view();
    let mut text: String = String::new();
    let mut n: usize = 0;
    assert(all.take(0) =~= Seq::empty());
    while n < list.len()
        invariant
            n <= list.len(),
            all == list.deep_view(),
            text@ == joined(all.take(n as int), separator@),
        decreases list.len() - n,
    {
        let ghost before = text@;
        if n > 0 {
            text.append(separator);
        }
        text.append(list[n]);
        proof {
            assert(all.take(n + 1).drop_last() =~= all.take(n as int));
            if n == 0 {
                assert(text@ =~= all[0]);
            }
        }
        n = n + 1;
    }
    assert(all.take(n as int) =~= all);
    text
}

/// The lines of a text, without the line ends.
pub open spec fn lines(text: Seq<char>) -> Seq<Seq<char>>
    decreases text.len(),
{
    if text.len() == 0 {
        Seq::empty()
    } else {
        let rest = lines(text.skip(1));
        if text[0] == '\n' {
            seq![Seq::empty()] + rest
        } else if rest.len() == 0 {
            seq![text.take(1)]
        } else {
            rest.update(0, text.take(1) + rest[0])
        }
    }
}

/// The decimal digits of a number.
pub open spec fn decimal(n: nat) -> Seq<char>
    decreases n,
{
    let digit = ('0' as nat + n % 10) as char;
    if n < 10 {
        seq![digit]
    } else {
        decimal(n / 10).push(digit)
    }
}

/// Writes a number in decimal.
pub(crate) fn to_decimal(n: u32) -> (text: String)
    ensures
        text@ == decimal(n as nat),
    decreases n,
{
    let digit: &str = match n % 10 {
        0 => "0",
        1 => "1",
        2 => "2",
        3 => "3",
        4 => "4",
        5 => "5",
        6 => "6",
        7 => "7",
        8 => "8",
        _ => "9",
    };
    proof {
        reveal_strlit("0");
        reveal_strlit("1");
        reveal_strlit("2");
        reveal_strlit("3");
        reveal_strlit("4");
        reveal_strlit("5");
        reveal_strlit("6");
        reveal_strlit("7");
        reveal_strlit("8");
        reveal_strlit("9");
        assert(digit@ =~= seq![('0' as nat + n as nat % 10) as char]);
    }
    if n < 10 {
        digit.to_owned()
    } else {
        let mut text: String = to_decimal(n / 10);
        text.append(digit);
        text
    }
}

/// A lower-case hexadecimal digit.
pub open spec fn hex_digit(n: int) -> char
    recommends
        0 <= n < 16,
{
    if n < 10 {
        ('0' as int + n) as char
    } else {
        ('a' as int + n - 10) as char
    }
}

/// Different digits are written differently.
pub proof fn lemma_hex_digit_injective(m: int, n: int)
    requires
        0 <= m < 16,
        0 <= n < 16,
        hex_digit(m) == hex_digit(n),
    ensures
        m == n,
{
}

/// The hexadecimal digits are the decimal ones and then the letters from `a` on.
pub proof fn law_hex_digit(n: int)
    requires
        0 <= n < 16,
    ensures
        hex_digit(n) == "0123456789abcdef"@[n],
{
    reveal_strlit("0123456789abcdef");
}

/// White space is the tab, the line ends, the space, and the spaces and separators beyond ASCII.
pub proof fn law_white_space(c: char)
    ensures
        is_white_space(c) <==> {
            ||| c == '\t' || c == '\n' || c == '\x0b' || c == '\x0c' || c == '\r' || c == ' '
            ||| c == '\u{85}' || c == '\u{a0}' || c == '\u{1680}'
            ||| '\u{2000}' <= c <= '\u{200a}'
            ||| c == '\u{2028}' || c == '\u{2029}' || c == '\u{202f}' || c == '\u{205f}'
            ||| c == '\u{3000}'
        },
{
}

proof fn lemma_without_leading(s: Seq<char>) -> (start: int)
    ensures
        0 <= start <= s.len(),
        without_leading(s) == s.subrange(start, s.len() as int),
        forall|i: int| 0 <= i < start ==> is_white_space(#[trigger] s[i]),
        start < s.len() ==> !is_white_space(s[start]),
    decreases s.len(),
{
    if s.len() > 0 && is_white_space(s.first()) {
        let tail = s.drop_first();
        let start = lemma_without_leading(tail);
        assert(tail.subrange(start, tail.len() as int) =~= s.subrange(start + 1, s.len() as int));
        assert forall|i: int| 0 <= i < start + 1 implies is_white_space(#[trigger] s[i]) by {
            if i > 0 {
                assert(tail[i - 1] == s[i]);
            }
        }
        start + 1
    } else {
        assert(s.subrange(0, s.len() as int) =~= s);
        0
    }
}

proof fn lemma_without_trailing(s: Seq<char>) -> (end: int)
    ensures
        0 <= end <= s.len(),
        without_trailing(s) == s.subrange(0, end),
        forall|i: int| end <= i < s.len() ==> is_white_space(#[trigger] s[i]),
        end > 0 ==> !is_white_space(s[end - 1]),
    decreases s.len(),
{
    if s.len() > 0 && is_white_space(s.last()) {
        let front = s.drop_last();
        let end = lemma_without_trailing(front);
        assert(front.subrange(0, end) =~= s.subrange(0, end));
        assert forall|i: int| end <= i < s.len() implies is_white_space(#[trigger] s[i]) by {
            if i < front.len() {
                assert(front[i] == s[i]);
            }
        }
        end
    } else {
        assert(s.subrange(0, s.len() as int) =~= s);
        s.len() as int
    }
}

/// Trimming keeps one stretch of the string as it is. All that stands before and after that
/// stretch is white space, and the stretch neither starts nor ends with white space.
pub proof fn law_trimmed(s: Seq<char>) -> (ends: (int, int))
    ensures
        0 <= ends.0 <= ends.1 <= s.len(),
        trimmed(s) == s.subrange(ends.0, ends.1),
        forall|i: int| 0 <= i < ends.0 ==> is_white_space(#[trigger] s[i]),
        forall|i: int| ends.1 <= i < s.len() ==> is_white_space(#[trigger] s[i]),
        ends.0 < ends.1 ==> !is_white_space(s[ends.0]) && !is_white_space(s[ends.1 - 1]),
{
    let start = lemma_without_leading(s);
    let rest = without_leading(s);
    let end = lemma_without_trailing(rest);
    assert(rest.subrange(0, end) =~= s.subrange(start, start + end));
    assert forall|i: int| start + end <= i < s.len() implies is_white_space(#[trigger] s[i]) by {
        assert(rest[i - start] == s[i]);
    }
    if end > 0 {
        assert(rest[0] == s[start]);
        assert(rest[end - 1] == s[start + end - 1]);
    }
    (start, start + end)
}

/// `part` stands in `text` at `start`.
pub open spec fn stands_at(text: Seq<char>, start: int, part: Seq<char>) -> bool {
    &&& 0 <= start
    &&& start + part.len() <= text.len()
    &&& text.subrange(start, start + part.len()) == part
}

proof fn lemma_stands_longer(text: Seq<char>, more: Seq<char>, start: int, part: Seq<char>)
    requires
        stands_at(text, start, part),
    ensures
        stands_at(text + more, start, part),
{
    assert((text + more).subrange(start, start + part.len()) =~= text.subrange(
        start,
        start + part.len(),
    ));
}

/// Each string of the list stands in the joined text character for character. The first starts the
/// text, the last ends it, and between two neighbours there is the separator and nothing else.
pub proof fn law_joined(list: Seq<Seq<char>>, separator: Seq<char>) -> (starts: Seq<int>)
    ensures
        starts.len() == list.len(),
        list.len() == 0 ==> joined(list, separator).len() == 0,
        list.len() > 0 ==> starts[0] == 0 && joined(list, separator).len() == starts[list.len() - 1]
            + list[list.len() - 1].len(),
        forall|i: int|
            0 <= i < list.len() ==> stands_at(joined(list, separator), starts[i], #[trigger] list[i]),
        forall|i: int|
            0 <= i < list.len() - 1 ==> starts[i + 1] == starts[i] + (#[trigger] list[i]).len()
                + separator.len() && stands_at(
                joined(list, separator),
                starts[i] + list[i].len(),
                separator,
            ),
    decreases list.len(),
{
    let text = joined(list, separator);
    if list.len() == 0 {
        Seq::empty()
    } else if list.len() == 1 {
        assert(text.subrange(0, text.len() as int) =~= list[0]);
        seq![0int]
    } else {
        let front = list.drop_last();
        let head = joined(front, separator);
        let before = law_joined(front, separator);
        let last = (head.len() + separator.len()) as int;
        let starts = before.push(last);
        let m = list.len() - 1;
        let more = separator + list.last();
        assert(text =~= head + more);
        assert(front[m - 1] == list[m - 1]);
        assert forall|i: int| 0 <= i < list.len() implies stands_at(
            text,
            starts[i],
            #[trigger] list[i],
        ) by {
            if i < m {
                assert(front[i] == list[i]);
                lemma_stands_longer(head, more, before[i], front[i]);
            } else {
                assert(text.subrange(last, last + list[i].len()) =~= list[i]);
            }
        }
        assert forall|i: int| 0 <= i < list.len() - 1 implies starts[i + 1] == starts[i] + (
        #[trigger] list[i]).len() + separator.len() && stands_at(
            text,
            starts[i] + list[i].len(),
            separator,
        ) by {
            assert(front[i] == list[i]);
            if i + 1 < m {
                lemma_stands_longer(head, more, before[i] + front[i].len(), separator);
            } else {
                assert(starts[i] + list[i].len() == head.len());
                assert(text.subrange(head.len() as int, last) =~= separator);
            }
        }
        starts
    }
}

/// The number that decimal digits stand for.
pub open spec fn number_read(digits: Seq<char>) -> int
    decreases digits.len(),
{
    if digits.len() == 0 {
        0
    } else {
        10 * number_read(digits.drop_last()) + (digits.last() as int - '0' as int)
    }
}

/// A number is written in decimal digits, without a leading zero, and is read back as it was.
pub proof fn law_decimal(n: nat)
    ensures
        number_read(decimal(n)) == n,
        decimal(n).len() > 0,
        decimal(n).len() > 1 ==> decimal(n)[0] != '0',
        forall|i: int| 0 <= i < decimal(n).len() ==> '0' <= #[trigger] decimal(n)[i] <= '9',
        n > 0 ==> decimal(n)[0] != '0',
    decreases n,
{
    let digit = ('0' as nat + n % 10) as char;
    if n < 10 {
        assert(decimal(n) =~= seq![digit]);
        assert(decimal(n).drop_last() =~= Seq::empty());
        assert(number_read(Seq::empty()) == 0);
    } else {
        law_decimal(n / 10);
        assert(decimal(n).drop_last() =~= decimal(n / 10));
    }
}

/// Joining can be taken up from the first string as well as from the last.
pub proof fn lemma_joined_first(list: Seq<Seq<char>>, separator: Seq<char>)
    requires
        list.len() > 1,
    ensures
        joined(list, separator) == list[0] + separator + joined(list.skip(1), separator),
    decreases list.len(),
{
    let tail = list.skip(1);
    let front = list.drop_last();
    if list.len() == 2 {
        assert(joined(front, separator) == list[0]);
        assert(joined(tail, separator) == list[1]);
    } else {
        lemma_joined_first(front, separator);
        assert(front.skip(1) =~= tail.drop_last());
        assert(joined(tail, separator) == joined(tail.drop_last(), separator) + separator
            + list.last());
        assert(joined(list, separator) =~= list[0] + separator + joined(tail, separator));
    }
}

} // verus!
