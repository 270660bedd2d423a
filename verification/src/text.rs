//! Text as Git prints it: lines, blank text, trimming, joining.
//!
//! The specifications speak of a text as its sequence of characters; the
//! executable functions walk that sequence once.

use crate::seqs::lemma_filter_one;
use vstd::prelude::*;

verus! {

/// Whether `c` is white space in the sense of Unicode.
pub open spec fn whitespace(c: char) -> bool {
    let n = c as u32;
    ||| 0x09 <= n <= 0x0D
    ||| n == 0x20
    ||| n == 0x85
    ||| n == 0xA0
    ||| n == 0x1680
    ||| 0x2000 <= n <= 0x200A
    ||| n == 0x2028
    ||| n == 0x2029
    ||| n == 0x202F
    ||| n == 0x205F
    ||| n == 0x3000
}

/// Whether every character of `s` is white space.
pub open spec fn blank(s: Seq<char>) -> bool {
    forall|i: int| 0 <= i < s.len() ==> whitespace(#[trigger] s[i])
}

/// `s` without its leading white space.
pub open spec fn trim_start(s: Seq<char>) -> Seq<char>
    decreases s.len(),
{
    if s.len() > 0 && whitespace(s[0]) {
        trim_start(s.skip(1))
    } else {
        s
    }
}

/// `s` without its trailing white space.
pub open spec fn trim_end(s: Seq<char>) -> Seq<char>
    decreases s.len(),
{
    if s.len() > 0 && whitespace(s.last()) {
        trim_end(s.drop_last())
    } else {
        s
    }
}

/// `s` without leading and trailing white space.
pub open spec fn trimmed(s: Seq<char>) -> Seq<char> {
    trim_end(trim_start(s))
}

/// The position of the first line feed in `s`, or the length of `s` if it
/// holds none.
pub open spec fn first_newline(s: Seq<char>) -> int
    decreases s.len(),
{
    if s.len() == 0 || s[0] == '\n' {
        0
    } else {
        1 + first_newline(s.skip(1))
    }
}

/// A line that a line feed ended, without the carriage return that may
/// stand before the line feed.
pub open spec fn strip_cr(line: Seq<char>) -> Seq<char> {
    if line.len() > 0 && line.last() == '\r' {
        line.drop_last()
    } else {
        line
    }
}

/// The lines of `s`. A line ends at a line feed, or at a carriage return
/// followed by a line feed; the ending is not part of the line. The last
/// line needs no ending, and a text that ends in one has no empty line
/// after it.
pub open spec fn lines(s: Seq<char>) -> Seq<Seq<char>>
    decreases s.len(),
{
    if s.len() == 0 {
        Seq::empty()
    } else {
        let n = first_newline(s);
        if 0 <= n < s.len() {
            seq![strip_cr(s.take(n))] + lines(s.skip(n + 1))
        } else {
            seq![s]
        }
    }
}

/// Whether `line` marks an untracked entry: it starts with two question
/// marks.
pub open spec fn untracked(line: Seq<char>) -> bool {
    line.len() >= 2 && line[0] == '?' && line[1] == '?'
}

/// Whether `line` counts as an entry: it is not empty and, where untracked
/// entries are skipped, does not mark one.
pub open spec fn counted(line: Seq<char>, skip_untracked: bool) -> bool {
    line.len() > 0 && !(skip_untracked && untracked(line))
}

/// The number of lines of `s` that count as entries.
pub open spec fn entry_count(s: Seq<char>, skip_untracked: bool) -> nat {
    lines(s).filter(|line: Seq<char>| counted(line, skip_untracked)).len()
}

/// The parts, with one space between each two of them.
pub open spec fn joined(parts: Seq<Seq<char>>) -> Seq<char>
    decreases parts.len(),
{
    if parts.len() == 0 {
        Seq::empty()
    } else if parts.len() == 1 {
        parts[0]
    } else {
        joined(parts.drop_last()) + " "@ + parts.last()
    }
}

/// The position of the first line feed lies within the text or at its end.
pub proof fn lemma_first_newline_bounds(s: Seq<char>)
    ensures
        0 <= first_newline(s) <= s.len(),
        first_newline(s) < s.len() ==> s[first_newline(s)] == '\n',
        forall|i: int| 0 <= i < first_newline(s) ==> #[trigger] s[i] != '\n',
    decreases s.len(),
{
    if s.len() == 0 || s[0] == '\n' {
    } else {
        let rest = s.skip(1);
        lemma_first_newline_bounds(rest);
        assert forall|i: int| 0 <= i < first_newline(s) implies #[trigger] s[i] != '\n' by {
            if i > 0 {
                assert(s[i] == rest[i - 1]);
            }
        }
    }
}

/// A position that holds a line feed, or the end of the text, with no
/// line feed before it, is the position of the first line feed.
pub proof fn lemma_first_newline_is(s: Seq<char>, n: int)
    requires
        0 <= n <= s.len(),
        n < s.len() ==> s[n] == '\n',
        forall|i: int| 0 <= i < n ==> #[trigger] s[i] != '\n',
    ensures
        first_newline(s) == n,
    decreases s.len(),
{
    if s.len() == 0 || s[0] == '\n' {
    } else {
        let rest = s.skip(1);
        assert forall|i: int| 0 <= i < n - 1 implies #[trigger] rest[i] != '\n' by {
            assert(rest[i] == s[i + 1]);
        }
        lemma_first_newline_is(rest, n - 1);
    }
}

/// How the entries of a text split into those of its first line and those
/// of the rest.
pub proof fn lemma_entry_count_step(s: Seq<char>, skip_untracked: bool)
    requires
        s.len() > 0,
    ensures
        first_newline(s) == s.len() ==> entry_count(s, skip_untracked) == (if counted(
            s,
            skip_untracked,
        ) {
            1nat
        } else {
            0nat
        }),
        first_newline(s) < s.len() ==> entry_count(s, skip_untracked) == (if counted(
            strip_cr(s.take(first_newline(s))),
            skip_untracked,
        ) {
            1nat
        } else {
            0nat
        }) + entry_count(s.skip(first_newline(s) + 1), skip_untracked),
{
    lemma_first_newline_bounds(s);
    let keep = |line: Seq<char>| counted(line, skip_untracked);
    let n = first_newline(s);
    if n == s.len() {
        let single = seq![s];
        assert(lines(s) == single);
        lemma_filter_one(s, keep);
    } else {
        let head = strip_cr(s.take(n));
        let rest = lines(s.skip(n + 1));
        assert(lines(s) == seq![head] + rest);
        Seq::filter_distributes_over_add(seq![head], rest, keep);
        lemma_filter_one(head, keep);
    }
}

/// Trimming leaves nothing exactly of a blank text.
pub proof fn lemma_blank_iff_trimmed_empty(s: Seq<char>)
    ensures
        blank(s) <==> trimmed(s).len() == 0,
{
    lemma_trim_start_shape(s);
    let t = trim_start(s);
    lemma_trim_end_shape(t);
    let k = s.len() - t.len();
    if t.len() == 0 {
        assert(s.take(k) =~= s);
    } else {
        // the first character of `t` is not white space and survives
        assert(!whitespace(t[0]));
        assert(s[k] == t[0]);
        if trim_end(t).len() == 0 {
            assert(t.skip(0) =~= t);
            assert(blank(t));
        }
    }
}

/// `trim_start` drops a blank prefix and stops before a character that is
/// not white space.
pub proof fn lemma_trim_start_shape(s: Seq<char>)
    ensures
        trim_start(s).len() <= s.len(),
        trim_start(s) == s.skip(s.len() - trim_start(s).len()),
        blank(s.take(s.len() - trim_start(s).len())),
        trim_start(s).len() > 0 ==> !whitespace(trim_start(s)[0]),
    decreases s.len(),
{
    if s.len() > 0 && whitespace(s[0]) {
        let rest = s.skip(1);
        lemma_trim_start_shape(rest);
        let t = trim_start(s);
        let k = s.len() - t.len();
        assert(rest.skip(rest.len() - t.len()) =~= s.skip(k));
        assert forall|i: int| 0 <= i < k implies whitespace(#[trigger] s.take(k)[i]) by {
            if i > 0 {
                assert(s.take(k)[i] == rest.take(k - 1)[i - 1]);
            }
        }
    } else {
        assert(s.skip(0) =~= s);
    }
}

/// `trim_end` drops a blank suffix and stops after a character that is not
/// white space.
pub proof fn lemma_trim_end_shape(s: Seq<char>)
    ensures
        trim_end(s).len() <= s.len(),
        trim_end(s) == s.take(trim_end(s).len() as int),
        blank(s.skip(trim_end(s).len() as int)),
        trim_end(s).len() > 0 ==> !whitespace(trim_end(s).last()),
    decreases s.len(),
{
    if s.len() > 0 && whitespace(s.last()) {
        let rest = s.drop_last();
        lemma_trim_end_shape(rest);
        let t = trim_end(s);
        let k = t.len() as int;
        assert(rest.take(k) =~= s.take(k));
        assert forall|i: int| 0 <= i < s.len() - k implies whitespace(#[trigger] s.skip(k)[i]) by {
            if i < s.len() - k - 1 {
                assert(s.skip(k)[i] == rest.skip(k)[i]);
            }
        }
    } else {
        assert(s.take(s.len() as int) =~= s);
    }
}

/// The characters of `text`, one element each.
pub fn chars_of(text: &str) -> (chars: Vec<char>)
    ensures
        chars@ == text@,
{
    let mut chars: Vec<char> = Vec::new();
    for c in it: text.chars()
        invariant
            it.seq() == text@,
            chars@ == it.seq().take(it.index() as int),
    {
        chars.push(c);
    }
    chars
}

/// Decides whether `c` is white space in the sense of Unicode.
pub fn is_whitespace(c: char) -> (answer: bool)
    ensures
        answer == whitespace(c),
{
    let n: u32 = c as u32;
    (0x09 <= n && n <= 0x0D) || n == 0x20 || n == 0x85 || n == 0xA0 || n == 0x1680 || (0x2000 <= n
        && n <= 0x200A) || n == 0x2028 || n == 0x2029 || n == 0x202F || n == 0x205F || n == 0x3000
}

/// Decides whether `text` holds nothing but white space.
pub fn is_blank(text: &str) -> (answer: bool)
    ensures
        answer == blank(text@),
{
    let chars = chars_of(text);
    let mut i: usize = 0;
    while i < chars.len()
        invariant
            chars@ == text@,
            i <= chars@.len(),
            forall|k: int| 0 <= k < i ==> whitespace(#[trigger] chars@[k]),
        decreases chars@.len() - i,
    {
        if !is_whitespace(chars[i]) {
            assert(!whitespace(text@[i as int]));
            return false;
        }
        i += 1;
    }
    true
}

/// `text` without leading and trailing white space.
pub fn trim(text: &str) -> (result: String)
    ensures
        result@ == trimmed(text@),
{
    let chars = chars_of(text);
    let mut start: usize = 0;
    assert(chars@.skip(0) =~= chars@);
    while start < chars.len() && is_whitespace(chars[start])
        invariant
            start <= chars@.len(),
            trim_start(chars@) == trim_start(chars@.skip(start as int)),
        decreases chars@.len() - start,
    {
        assert(chars@.skip(start as int).skip(1) =~= chars@.skip(start + 1));
        start += 1;
    }
    assert(trim_start(chars@) == chars@.skip(start as int)) by {
        assert(chars@.skip(start as int).len() > 0 ==> chars@.skip(start as int)[0]
            == chars@[start as int]);
    }
    let mut end: usize = chars.len();
    assert(chars@.subrange(start as int, end as int) =~= chars@.skip(start as int));
    while end > start && is_whitespace(chars[end - 1])
        invariant
            start <= end <= chars@.len(),
            trimmed(chars@) == trim_end(chars@.subrange(start as int, end as int)),
        decreases end - start,
    {
        assert(chars@.subrange(start as int, end as int).drop_last() =~= chars@.subrange(
            start as int,
            end - 1,
        ));
        end -= 1;
    }
    assert(trimmed(chars@) == chars@.subrange(start as int, end as int)) by {
        let kept = chars@.subrange(start as int, end as int);
        assert(kept.len() > 0 ==> kept.last() == chars@[end - 1]);
    }
    text.substring_char(start, end).to_string()
}

/// Counts the lines of `text` that are entries: those that are not empty
/// and, if `skip_untracked` is set, do not start with two question marks.
pub fn count_entries(text: &str, skip_untracked: bool) -> (count: usize)
    ensures
        count == entry_count(text@, skip_untracked),
{
    let chars = chars_of(text);
    let len = chars.len();
    let mut start: usize = 0;
    let mut count: usize = 0;
    assert(chars@.skip(0) =~= chars@);
    while start < len
        invariant
            len == chars@.len(),
            start <= len,
            count <= start,
            count + entry_count(chars@.skip(start as int), skip_untracked) == entry_count(
                chars@,
                skip_untracked,
            ),
        decreases len - start,
    {
        let ghost rest = chars@.skip(start as int);
        let mut end: usize = start;
        while end < len && chars[end] != '\n'
            invariant
                len == chars@.len(),
                start <= end <= len,
                forall|k: int| start <= k < end ==> #[trigger] chars@[k] != '\n',
            decreases len - end,
        {
            end += 1;
        }
        proof {
            assert forall|i: int| 0 <= i < end - start implies #[trigger] rest[i] != '\n' by {
                assert(rest[i] == chars@[start + i]);
            }
            lemma_first_newline_is(rest, end - start);
            lemma_entry_count_step(rest, skip_untracked);
        }
        let ended = end < len;
        let mut stop: usize = end;
        if ended && stop > start && chars[stop - 1] == '\r' {
            stop -= 1;
        }
        let ghost line = chars@.subrange(start as int, stop as int);
        proof {
            let whole = rest.take(end - start);
            assert(whole =~= chars@.subrange(start as int, end as int));
            if ended {
                assert(whole.len() > 0 ==> whole.last() == chars@[end - 1]);
                assert(strip_cr(whole) =~= line);
                assert(rest.skip(end - start + 1) =~= chars@.skip(end + 1));
            } else {
                assert(line =~= rest);
                assert(chars@.skip(len as int).len() == 0);
                assert(lines(chars@.skip(len as int)) =~= Seq::<Seq<char>>::empty());
                assert(entry_count(chars@.skip(len as int), skip_untracked) == 0);
            }
            assert(line.len() >= 2 ==> line[0] == chars@[start as int] && line[1] == chars@[start
                + 1]);
        }
        let marks_untracked = stop - start >= 2 && chars[start] == '?' && chars[start + 1] == '?';
        if stop > start && !(skip_untracked && marks_untracked) {
            count += 1;
        }
        start = if ended {
            end + 1
        } else {
            end
        };
    }
    assert(lines(chars@.skip(len as int)) =~= Seq::<Seq<char>>::empty());
    count
}

/// Joins `parts` with one space between each two of them.
pub fn join(parts: &Vec<String>) -> (result: String)
    ensures
        result@ == joined(parts.deep_view()),
{
    let mut result = String::new();
    let mut i: usize = 0;
    while i < parts.len()
        invariant
            i <= parts@.len(),
            result@ == joined(parts.deep_view().take(i as int)),
        decreases parts@.len() - i,
    {
        let ghost before = parts.deep_view().take(i as int);
        let ghost after = parts.deep_view().take(i + 1);
        proof {
            assert(after.drop_last() =~= before);
            assert(after.last() == parts@[i as int]@);
        }
        if i > 0 {
            result.append(" ");
        } else {
            assert(result@ + parts@[i as int]@ =~= parts@[i as int]@);
        }
        result.append(parts[i].as_str());
        i += 1;
    }
    assert(parts.deep_view().take(parts@.len() as int) =~= parts.deep_view());
    result
}

} // verus!
