//! What Demucs prints: its progress bars, and what is worth repeating of its
//! errors.
use crate::error::Error;
use crate::paths::{separated, write_separated};
use crate::text::{chars_of, joined, substring, texts};
use vstd::prelude::*;

verus! {

/// A line without the carriage return at its end.
pub open spec fn chomped(line: Seq<char>) -> Seq<char> {
    if line.len() > 0 && line.last() == '\r' {
        line.drop_last()
    } else {
        line
    }
}

/// What follows the last line feed of a text.
pub open spec fn open_line(t: Seq<char>) -> Seq<char>
    decreases t.len(),
{
    if t.len() == 0 || t.last() == '\n' {
        Seq::empty()
    } else {
        open_line(t.drop_last()).push(t.last())
    }
}

/// The lines of a text that a line feed ends.
pub open spec fn closed_lines(t: Seq<char>) -> Seq<Seq<char>>
    decreases t.len(),
{
    if t.len() == 0 {
        Seq::empty()
    } else if t.last() == '\n' {
        closed_lines(t.drop_last()).push(chomped(open_line(t.drop_last())))
    } else {
        closed_lines(t.drop_last())
    }
}

/// The lines of a text. The last one needs no line feed, but then keeps a
/// carriage return at its end.
pub open spec fn lines(t: Seq<char>) -> Seq<Seq<char>> {
    if open_line(t).len() == 0 {
        closed_lines(t)
    } else {
        closed_lines(t).push(open_line(t))
    }
}

fn read_lines(t: &str) -> (res: Vec<String>)
    ensures
        texts(res@) == lines(t@),
{
    let chars: Vec<char> = chars_of(t);
    let len: usize = chars.len();
    let mut out: Vec<String> = Vec::new();
    let mut start: usize = 0;
    let mut i: usize = 0;
    assert(t@.take(0) =~= Seq::empty());
    assert(texts(out@) =~= closed_lines(t@.take(0)));
    while i < len
        invariant
            chars@ == t@,
            len == t@.len(),
            start <= i <= len,
            t@.subrange(start as int, i as int) == open_line(t@.take(i as int)),
            texts(out@) == closed_lines(t@.take(i as int)),
        decreases len - i,
    {
        let ghost known = out@;
        assert(t@.take(i + 1).drop_last() =~= t@.take(i as int));
        if chars[i] == '\n' {
            let ghost line = t@.subrange(start as int, i as int);
            let end: usize = if i > start && chars[i - 1] == '\r' {
                i - 1
            } else {
                i
            };
            assert(t@.subrange(start as int, end as int) =~= chomped(line));
            out.push(substring(&chars, start, end));
            assert(texts(out@) =~= texts(known).push(chomped(line)));
            start = i + 1;
        }
        assert(t@.subrange(start as int, i + 1) =~= open_line(t@.take(i + 1)));
        i = i + 1;
    }
    assert(t@.take(len as int) =~= t@);
    if start < len {
        let ghost known = out@;
        out.push(substring(&chars, start, len));
        assert(texts(out@) =~= texts(known).push(open_line(t@)));
    }
    out
}

/// Whether the character is white space, in the sense of Unicode.
pub open spec fn is_space(c: char) -> bool {
    let n = c as int;
    ||| 0x09 <= n <= 0x0d
    ||| n == 0x20
    ||| n == 0x85
    ||| n == 0xa0
    ||| n == 0x1680
    ||| 0x2000 <= n <= 0x200a
    ||| n == 0x2028
    ||| n == 0x2029
    ||| n == 0x202f
    ||| n == 0x205f
    ||| n == 0x3000
}

fn space(c: char) -> (res: bool)
    ensures
        res == is_space(c),
{
    let n: u32 = c as u32;
    (0x09 <= n && n <= 0x0d) || n == 0x20 || n == 0x85 || n == 0xa0 || n == 0x1680 || (0x2000 <= n
        && n <= 0x200a) || n == 0x2028 || n == 0x2029 || n == 0x202f || n == 0x205f || n == 0x3000
}

/// Whether a line holds nothing but white space.
pub open spec fn is_blank(line: Seq<char>) -> bool {
    forall|i: int| 0 <= i < line.len() ==> is_space(#[trigger] line[i])
}

fn blank(line: &Vec<char>) -> (res: bool)
    ensures
        res == is_blank(line@),
{
    let mut i: usize = 0;
    while i < line.len()
        invariant
            i <= line@.len(),
            forall|k: int| 0 <= k < i ==> is_space(#[trigger] line@[k]),
        decreases line@.len() - i,
    {
        if !space(line[i]) {
            return false;
        }
        i = i + 1;
    }
    true
}

/// Whether `part` stands in `line` at this place.
pub open spec fn stands_at(line: Seq<char>, part: Seq<char>, at: int) -> bool {
    0 <= at && at + part.len() <= line.len() && line.subrange(at, at + part.len()) == part
}

/// Whether `part` stands somewhere in `line`.
pub open spec fn mentions(line: Seq<char>, part: Seq<char>) -> bool {
    exists|at: int| stands_at(line, part, at)
}

fn found_at(line: &Vec<char>, part: &Vec<char>, at: usize) -> (res: bool)
    requires
        at + part@.len() <= line@.len(),
    ensures
        res == stands_at(line@, part@, at as int),
{
    let ghost here = line@.subrange(at as int, at + part@.len());
    let mut i: usize = 0;
    while i < part.len()
        invariant
            i <= part@.len(),
            at + part@.len() <= line@.len(),
            here == line@.subrange(at as int, at + part@.len()),
            forall|k: int| 0 <= k < i ==> here[k] == part@[k],
        decreases part@.len() - i,
    {
        let total: usize = line.len();
        assert(at + i < total);
        if line[at + i] != part[i] {
            assert(here[i as int] != part@[i as int]);
            return false;
        }
        i = i + 1;
    }
    assert(here =~= part@);
    true
}

fn line_mentions(line: &Vec<char>, part: &str) -> (res: bool)
    ensures
        res == mentions(line@, part@),
{
    let sought: Vec<char> = chars_of(part);
    let len: usize = line.len();
    let size: usize = sought.len();
    if size > len {
        return false;
    }
    let mut at: usize = 0;
    while at <= len - size
        invariant
            len == line@.len(),
            sought@ == part@,
            size == part@.len(),
            size <= len,
            at <= len - size + 1,
            forall|k: int| 0 <= k < at ==> !stands_at(line@, part@, k),
        decreases len - size + 1 - at,
    {
        if found_at(line, &sought, at) {
            return true;
        }
        if at == len - size {
            return false;
        }
        at = at + 1;
    }
    false
}

/// Whether a line of the program's errors says something of its own.
pub open spec fn is_useful(line: Seq<char>) -> bool {
    &&& !mentions(line, "UserWarning"@)
    &&& !mentions(line, "warnings.warn"@)
    &&& !mentions(line, "torchaudio.load_with_torchcodec"@)
    &&& !is_blank(line)
}

fn useful(line: &str) -> (res: bool)
    ensures
        res == is_useful(line@),
{
    let chars: Vec<char> = chars_of(line);
    !line_mentions(&chars, "UserWarning") && !line_mentions(&chars, "warnings.warn")
        && !line_mentions(&chars, "torchaudio.load_with_torchcodec") && !blank(&chars)
}

/// The useful lines of a text.
pub open spec fn useful_lines(t: Seq<char>) -> Seq<Seq<char>> {
    lines(t).filter(|line: Seq<char>| is_useful(line))
}

/// What is repeated of the program's errors: the useful lines, or the last
/// line where there is none.
pub open spec fn summary(t: Seq<char>) -> Seq<char> {
    if useful_lines(t).len() > 0 {
        separated(useful_lines(t), " / "@)
    } else if lines(t).len() > 0 {
        lines(t).last()
    } else {
        "(no error output)"@
    }
}

/// What is repeated of the program's errors.
pub fn error_summary(stderr: &str) -> (res: String)
    ensures
        res@ == summary(stderr@),
{
    let all: Vec<String> = read_lines(stderr);
    let mut kept: Vec<String> = Vec::new();
    let mut i: usize = 0;
    let ghost pred = |line: Seq<char>| is_useful(line);
    proof {
        reveal(Seq::filter);
    }
    assert(texts(all@).take(0) =~= Seq::empty());
    assert(texts(kept@) =~= texts(all@).take(0).filter(pred));
    while i < all.len()
        invariant
            i <= all@.len(),
            pred == (|line: Seq<char>| is_useful(line)),
            texts(kept@) == texts(all@).take(i as int).filter(pred),
        decreases all@.len() - i,
    {
        let ghost known = kept@;
        proof {
            reveal(Seq::filter);
            assert(texts(all@).take(i + 1).drop_last() =~= texts(all@).take(i as int));
        }
        if useful(all[i].as_str()) {
            kept.push(all[i].as_str().to_owned());
            assert(texts(kept@) =~= texts(known).push(all@[i as int]@));
        }
        i = i + 1;
    }
    assert(texts(all@).take(all@.len() as int) =~= texts(all@));
    if kept.len() > 0 {
        write_separated(&kept, " / ")
    } else if all.len() > 0 {
        all[all.len() - 1].as_str().to_owned()
    } else {
        "(no error output)".to_owned()
    }
}

/// Why a split failed: how the program ended, and what it had to say.
pub fn split_failure(status: &str, stderr: &str) -> (res: Error)
    ensures
        res is Other,
        res->Other_0@ == "demucs failed (exit "@ + status@ + "): "@ + summary(stderr@),
{
    let mut out: String = joined("demucs failed (exit ", status);
    out.append("): ");
    out.append(error_summary(stderr).as_str());
    Error::Other(out)
}

/// Whether the byte is an ASCII digit.
pub open spec fn is_digit(b: u8) -> bool {
    48 <= b <= 57
}

/// Whether the byte can stand in a percentage: a digit or a dot.
pub open spec fn in_percentage(b: u8) -> bool {
    is_digit(b) || b == 46
}

/// Where the digits and dots in front of this place begin.
pub open spec fn percentage_start(bytes: Seq<u8>, end: int) -> int
    decreases end,
{
    if end > 0 && in_percentage(bytes[end - 1]) {
        percentage_start(bytes, end - 1)
    } else {
        end
    }
}

/// The digits and dots in front of this place.
pub open spec fn percentage(bytes: Seq<u8>, end: int) -> Seq<u8> {
    bytes.subrange(percentage_start(bytes, end), end)
}

/// Whether a percent sign stands at this place, behind at least one digit.
pub open spec fn is_marker(bytes: Seq<u8>, at: int) -> bool {
    bytes[at] == 37 && exists|i: int|
        percentage_start(bytes, at) <= i < at && is_digit(#[trigger] bytes[i])
}

/// ASCII bytes as text.
pub open spec fn as_text(bytes: Seq<u8>) -> Seq<char> {
    bytes.map_values(|b: u8| b as char)
}

/// The percentages among the first `n` bytes, in order.
pub open spec fn percentages(bytes: Seq<u8>, n: int) -> Seq<Seq<char>>
    decreases n,
{
    if n <= 0 {
        Seq::empty()
    } else if is_marker(bytes, n - 1) {
        percentages(bytes, n - 1).push(as_text(percentage(bytes, n - 1)))
    } else {
        percentages(bytes, n - 1)
    }
}

proof fn lemma_percentage_start(bytes: Seq<u8>, end: int)
    requires
        0 <= end <= bytes.len(),
    ensures
        0 <= percentage_start(bytes, end) <= end,
        forall|i: int|
            percentage_start(bytes, end) <= i < end ==> in_percentage(#[trigger] bytes[i]),
    decreases end,
{
    if end > 0 && in_percentage(bytes[end - 1]) {
        lemma_percentage_start(bytes, end - 1);
    }
}

fn write_percentage(bytes: &[u8], from: usize, to: usize) -> (res: String)
    requires
        from <= to <= bytes@.len(),
    ensures
        res@ == as_text(bytes@.subrange(from as int, to as int)),
{
    let mut out: String = String::new();
    let mut i: usize = from;
    while i < to
        invariant
            from <= i <= to <= bytes@.len(),
            out@ =~= as_text(bytes@.subrange(from as int, i as int)),
        decreases to - i,
    {
        assert(bytes@.subrange(from as int, i + 1) =~= bytes@.subrange(from as int, i as int).push(
            bytes@[i as int],
        ));
        out.push(bytes[i] as char);
        i = i + 1;
    }
    out
}

/// The percentages in what the program printed, in order. A progress bar is
/// drawn over and over, so the last one is the freshest.
pub fn read_percentages(bytes: &[u8]) -> (res: Vec<String>)
    ensures
        texts(res@) == percentages(bytes@, bytes@.len() as int),
{
    let mut out: Vec<String> = Vec::new();
    let mut i: usize = 0;
    assert(texts(out@) =~= percentages(bytes@, 0));
    while i < bytes.len()
        invariant
            i <= bytes@.len(),
            texts(out@) == percentages(bytes@, i as int),
        decreases bytes@.len() - i,
    {
        let ghost known = out@;
        if bytes[i] == 37 {
            let mut from: usize = i;
            let mut had_digit: bool = false;
            while from > 0 && (bytes[from - 1] == 46 || (48 <= bytes[from - 1] && bytes[from - 1]
                <= 57))
                invariant
                    from <= i < bytes@.len(),
                    percentage_start(bytes@, i as int) == percentage_start(bytes@, from as int),
                    had_digit <==> exists|k: int| from <= k < i && is_digit(#[trigger] bytes@[k]),
                decreases from,
            {
                from = from - 1;
                if bytes[from] != 46 {
                    assert(is_digit(bytes@[from as int]));
                    had_digit = true;
                }
            }
            if had_digit {
                out.push(write_percentage(bytes, from, i));
                assert(texts(out@) =~= texts(known).push(as_text(percentage(bytes@, i as int))));
            }
        }
        i = i + 1;
    }
    out
}

/// Whether a text is made of digits and dots, with at least one digit.
pub open spec fn has_number_form(t: Seq<char>) -> bool {
    &&& forall|i: int| 0 <= i < t.len() ==> '0' <= #[trigger] t[i] <= '9' || t[i] == '.'
    &&& exists|i: int| 0 <= i < t.len() && '0' <= #[trigger] t[i] <= '9'
}

/// Every percentage is made of digits and dots, with at least one digit.
pub proof fn law_percentages_are_numbers(bytes: Seq<u8>, n: int)
    requires
        0 <= n <= bytes.len(),
    ensures
        forall|k: int|
            0 <= k < percentages(bytes, n).len() ==> has_number_form(
                #[trigger] percentages(bytes, n)[k],
            ),
    decreases n,
{
    if n > 0 {
        law_percentages_are_numbers(bytes, n - 1);
        if is_marker(bytes, n - 1) {
            let start = percentage_start(bytes, n - 1);
            let found = as_text(percentage(bytes, n - 1));
            lemma_percentage_start(bytes, n - 1);
            assert forall|i: int| 0 <= i < found.len() implies '0' <= #[trigger] found[i] <= '9'
                || found[i] == '.' by {
                assert(in_percentage(bytes[start + i]));
                assert(found[i] == bytes[start + i] as char);
            }
            let at = choose|i: int| start <= i < n - 1 && is_digit(#[trigger] bytes[i]);
            assert(found[at - start] == bytes[at] as char);
            assert(has_number_form(found));
        }
        assert forall|k: int| 0 <= k < percentages(bytes, n).len() implies has_number_form(
            #[trigger] percentages(bytes, n)[k],
        ) by {
            if k < percentages(bytes, n - 1).len() {
                assert(has_number_form(percentages(bytes, n - 1)[k]));
            }
        }
    }
}

proof fn lemma_percentage_ignores_what_follows(a: Seq<u8>, b: Seq<u8>, end: int)
    requires
        0 <= end <= a.len(),
    ensures
        percentage_start(a + b, end) == percentage_start(a, end),
        percentage(a + b, end) == percentage(a, end),
    decreases end,
{
    if end > 0 {
        assert((a + b)[end - 1] == a[end - 1]);
        if in_percentage(a[end - 1]) {
            lemma_percentage_ignores_what_follows(a, b, end - 1);
        }
    }
    lemma_percentage_start(a, end);
    assert(percentage(a + b, end) =~= percentage(a, end));
}

/// Later output adds percentages behind those that were there before: it
/// neither takes one away nor changes one.
pub proof fn law_later_output_comes_last(before: Seq<u8>, after: Seq<u8>, n: int)
    requires
        0 <= n <= before.len(),
    ensures
        percentages(before + after, n) == percentages(before, n),
    decreases n,
{
    if n > 0 {
        law_later_output_comes_last(before, after, n - 1);
        lemma_percentage_ignores_what_follows(before, after, n - 1);
        let all = before + after;
        assert(is_marker(all, n - 1) == is_marker(before, n - 1)) by {
            let start = percentage_start(before, n - 1);
            lemma_percentage_start(before, n - 1);
            assert(all[n - 1] == before[n - 1]);
            assert forall|i: int| start <= i < n - 1 implies is_digit(#[trigger] all[i])
                == is_digit(before[i]) by {}
            if is_marker(before, n - 1) {
                let i = choose|i: int| start <= i < n - 1 && is_digit(#[trigger] before[i]);
                assert(is_digit(all[i]));
            }
        }
    }
}

/// How much of the program's output is scanned at a time before it is cut.
pub const TAIL_LIMIT: usize = 4096;

/// How much of it is kept.
pub const TAIL_KEPT: usize = 1024;

/// The end of the program's output that is kept for the next scan.
pub open spec fn kept_tail(tail: Seq<u8>) -> Seq<u8> {
    if tail.len() > TAIL_LIMIT {
        tail.skip(tail.len() - TAIL_KEPT)
    } else {
        tail
    }
}

/// Keeps the end of the program's output for the next scan.
pub fn keep_tail(tail: Vec<u8>) -> (res: Vec<u8>)
    ensures
        res@ == kept_tail(tail@),
{
    if tail.len() <= TAIL_LIMIT {
        return tail;
    }
    let from: usize = tail.len() - TAIL_KEPT;
    let mut out: Vec<u8> = Vec::new();
    let mut i: usize = from;
    while i < tail.len()
        invariant
            from <= i <= tail@.len(),
            out@ == tail@.subrange(from as int, i as int),
        decreases tail@.len() - i,
    {
        out.push(tail[i]);
        i = i + 1;
    }
    assert(out@ =~= kept_tail(tail@));
    out
}

/// However much the program prints, no more than a limit is kept.
pub proof fn law_tail_stays_short(tail: Seq<u8>)
    ensures
        kept_tail(tail).len() <= TAIL_LIMIT,
        kept_tail(kept_tail(tail)) == kept_tail(tail),
        forall|i: int|
            0 < i <= kept_tail(tail).len() ==> kept_tail(tail)[kept_tail(tail).len() - i]
                == #[trigger] tail[tail.len() - i],
{
}

proof fn lemma_start_after_cut(tail: Seq<u8>, cut: int, m: int)
    requires
        0 < cut <= tail.len(),
        0 <= m <= tail.len() - cut,
        !in_percentage(tail[cut - 1]),
    ensures
        percentage_start(tail, cut + m) == cut + percentage_start(tail.skip(cut), m),
    decreases m,
{
    if m > 0 {
        assert(tail.skip(cut)[m - 1] == tail[cut + m - 1]);
        lemma_start_after_cut(tail, cut, m - 1);
    }
}

proof fn lemma_percentages_after_cut(tail: Seq<u8>, cut: int, m: int)
    requires
        0 < cut <= tail.len(),
        0 <= m <= tail.len() - cut,
        !in_percentage(tail[cut - 1]),
    ensures
        percentages(tail, cut + m) == percentages(tail, cut) + percentages(tail.skip(cut), m),
    decreases m,
{
    let kept = tail.skip(cut);
    if m == 0 {
        assert(percentages(tail, cut) + percentages(kept, 0) =~= percentages(tail, cut));
    } else {
        lemma_percentages_after_cut(tail, cut, m - 1);
        lemma_start_after_cut(tail, cut, m - 1);
        let at = cut + m - 1;
        let start = percentage_start(kept, m - 1);
        lemma_percentage_start(kept, m - 1);
        assert(kept[m - 1] == tail[at]);
        assert(percentage(tail, at) =~= percentage(kept, m - 1));
        assert(is_marker(tail, at) == is_marker(kept, m - 1)) by {
            if is_marker(tail, at) {
                let i = choose|i: int| cut + start <= i < at && is_digit(#[trigger] tail[i]);
                assert(is_digit(kept[i - cut]));
            }
            if is_marker(kept, m - 1) {
                let i = choose|i: int| start <= i < m - 1 && is_digit(#[trigger] kept[i]);
                assert(is_digit(tail[cut + i]));
            }
        }
        assert(percentages(tail, cut + m) =~= percentages(tail, cut) + percentages(kept, m));
    }
}

/// Cutting the output takes away old percentages only: those in what is kept
/// are the last ones of the whole, whatever characters the cut falls into, as
/// long as it does not fall into the digits of a percentage.
pub proof fn law_cut_keeps_the_freshest(tail: Seq<u8>) -> (dropped: int)
    requires
        tail.len() > TAIL_LIMIT ==> !in_percentage(tail[tail.len() - TAIL_KEPT - 1]),
    ensures
        0 <= dropped <= percentages(tail, tail.len() as int).len(),
        percentages(kept_tail(tail), kept_tail(tail).len() as int) == percentages(
            tail,
            tail.len() as int,
        ).skip(dropped),
{
    let all = percentages(tail, tail.len() as int);
    if tail.len() > TAIL_LIMIT {
        let cut = tail.len() - TAIL_KEPT;
        lemma_percentages_after_cut(tail, cut, TAIL_KEPT as int);
        let dropped = percentages(tail, cut).len() as int;
        assert(all.skip(dropped) =~= percentages(kept_tail(tail), TAIL_KEPT as int));
        dropped
    } else {
        assert(all.skip(0) =~= all);
        0
    }
}

proof fn lemma_first_line(line: Seq<char>, rest: Seq<char>)
    requires
        !line.contains('\n'),
    ensures
        open_line(line) == line,
        closed_lines(line) == Seq::<Seq<char>>::empty(),
        open_line(line + seq!['\n'] + rest) == open_line(rest),
        closed_lines(line + seq!['\n'] + rest) == seq![chomped(line)] + closed_lines(rest),
    decreases line.len() + rest.len(),
{
    let t = line + seq!['\n'] + rest;
    if rest.len() > 0 {
        let less = rest.drop_last();
        lemma_first_line(line, less);
        assert(t.drop_last() =~= line + seq!['\n'] + less);
        assert(t.last() == rest.last());
        assert(closed_lines(t) =~= seq![chomped(line)] + closed_lines(rest));
    } else {
        if line.len() > 0 {
            let front = line.drop_last();
            assert forall|i: int| 0 <= i < front.len() implies front[i] != '\n' by {
                assert(front[i] == line[i]);
                assert(line.contains(line[i]));
            }
            assert(!front.contains('\n'));
            lemma_first_line(front, rest);
            assert(line.contains(line.last()));
            assert(front.push(line.last()) =~= line);
        } else {
            assert(open_line(line) =~= line);
            assert(closed_lines(line) =~= Seq::empty());
        }
        assert(open_line(line) == line);
        assert(closed_lines(line) =~= Seq::empty());
        assert(closed_lines(rest) =~= Seq::empty());
        assert(t.drop_last() =~= line);
        assert(t.last() == '\n');
        assert(closed_lines(t) =~= seq![chomped(line)] + closed_lines(rest));
    }
}

/// A text is read line by line: each line feed ends a line, and a carriage
/// return in front of it goes with it. What follows the last line feed is a line
/// too, unless it is empty.
pub proof fn law_line_by_line(line: Seq<char>, rest: Seq<char>)
    requires
        !line.contains('\n'),
    ensures
        line.len() == 0 || line.last() != '\r' ==> lines(line + seq!['\n'] + rest) == seq![line]
            + lines(rest),
        lines(line + seq!['\r', '\n'] + rest) == seq![line] + lines(rest),
        line.len() > 0 ==> lines(line) == seq![line],
        lines(Seq::empty()) == Seq::<Seq<char>>::empty(),
{
    lemma_first_line(line, rest);
    lemma_first_line(line, Seq::empty());
    let ended = line.push('\r');
    assert forall|i: int| 0 <= i < ended.len() implies ended[i] != '\n' by {
        if i < line.len() {
            assert(ended[i] == line[i]);
            assert(line.contains(line[i]));
        }
    }
    assert(!ended.contains('\n'));
    lemma_first_line(ended, rest);
    assert(ended.drop_last() =~= line);
    assert(line + seq!['\r', '\n'] + rest =~= ended + seq!['\n'] + rest);
    if open_line(rest).len() > 0 {
        assert((seq![line] + closed_lines(rest)).push(open_line(rest)) =~= seq![line] + lines(
            rest,
        ));
    }
    if line.len() > 0 {
        assert(lines(line) =~= seq![line]);
    }
    assert(closed_lines(Seq::empty()) =~= Seq::empty());
}

/// The lines that are repeated are those with something in them besides white
/// space that mention no warning, in the order of the text.
pub proof fn law_which_lines_are_repeated(line: Seq<char>, a: Seq<char>, b: Seq<char>)
    ensures
        line == a + "UserWarning"@ + b ==> !is_useful(line),
        line == a + "warnings.warn"@ + b ==> !is_useful(line),
        line == a + "torchaudio.load_with_torchcodec"@ + b ==> !is_useful(line),
        (forall|i: int| 0 <= i < line.len() ==> is_space(#[trigger] line[i])) ==> !is_useful(line),
        is_useful(line) <==> {
            &&& forall|at: int|
                0 <= at <= line.len() ==> !"UserWarning"@.is_prefix_of(#[trigger] line.skip(at))
            &&& forall|at: int|
                0 <= at <= line.len() ==> !"warnings.warn"@.is_prefix_of(#[trigger] line.skip(at))
            &&& forall|at: int|
                0 <= at <= line.len() ==> !"torchaudio.load_with_torchcodec"@.is_prefix_of(
                    #[trigger] line.skip(at),
                )
            &&& exists|i: int| 0 <= i < line.len() && !is_space(#[trigger] line[i])
        },
{
    lemma_mentions(line, "UserWarning"@, a, b);
    lemma_mentions(line, "warnings.warn"@, a, b);
    lemma_mentions(line, "torchaudio.load_with_torchcodec"@, a, b);
}

proof fn lemma_mentions(line: Seq<char>, part: Seq<char>, a: Seq<char>, b: Seq<char>)
    ensures
        line == a + part + b ==> mentions(line, part),
        mentions(line, part) <==> exists|at: int|
            0 <= at <= line.len() && part.is_prefix_of(#[trigger] line.skip(at)),
{
    if line == a + part + b {
        assert(line.subrange(a.len() as int, a.len() as int + part.len()) =~= part);
        assert(stands_at(line, part, a.len() as int));
    }
    if mentions(line, part) {
        let at = choose|at: int| stands_at(line, part, at);
        assert(line.skip(at).subrange(0, part.len() as int) =~= line.subrange(
            at,
            at + part.len(),
        ));
        assert(part.is_prefix_of(line.skip(at)));
    }
    if exists|at: int| 0 <= at <= line.len() && part.is_prefix_of(#[trigger] line.skip(at)) {
        let at = choose|at: int|
            0 <= at <= line.len() && part.is_prefix_of(#[trigger] line.skip(at));
        assert(line.skip(at).subrange(0, part.len() as int) =~= line.subrange(
            at,
            at + part.len(),
        ));
        assert(stands_at(line, part, at));
    }
}

/// The characters that are white space.
pub proof fn law_white_space(c: char)
    ensures
        is_space(c) <==> c == '\t' || c == '\n' || c == '\x0b' || c == '\x0c' || c == '\r' || c
            == ' ' || c == '\u{85}' || c == '\u{a0}' || c == '\u{1680}' || '\u{2000}' <= c
            <= '\u{200a}' || c == '\u{2028}' || c == '\u{2029}' || c == '\u{202f}' || c
            == '\u{205f}' || c == '\u{3000}',
{
}

/// What is repeated of some output: its useful lines with a slash between them;
/// without one, its last line; and of no output, that there was none.
pub proof fn law_what_is_repeated(t: Seq<char>, line: Seq<char>)
    ensures
        useful_lines(t) == lines(t).filter(|l: Seq<char>| is_useful(l)),
        useful_lines(t).len() > 0 ==> summary(t) == separated(useful_lines(t), " / "@),
        lines(t) == seq![line] && is_useful(line) ==> summary(t) == line,
        useful_lines(t).len() == 0 && lines(t).len() > 0 ==> summary(t) == lines(t)[lines(t).len()
            - 1],
        summary(Seq::empty()) == "(no error output)"@,
{
    law_line_by_line(Seq::empty(), Seq::empty());
    reveal(Seq::filter);
    let none = lines(Seq::empty());
    assert(none.filter(|l: Seq<char>| is_useful(l)).len() == 0);
    if lines(t) == seq![line] && is_useful(line) {
        reveal_with_fuel(Seq::filter, 2);
        assert(seq![line].drop_last() =~= Seq::empty());
        assert(useful_lines(t) =~= seq![line]);
    }
}

/// A percent sign behind digits and dots, with at least one digit among them and
/// something else or nothing in front of them, makes a percentage of them.
pub proof fn law_percentage_is_read(before: Seq<u8>, number: Seq<u8>, digit: int)
    requires
        before.len() > 0 ==> !(48 <= before.last() <= 57 || before.last() == 46),
        forall|i: int|
            0 <= i < number.len() ==> 48 <= #[trigger] number[i] <= 57 || number[i] == 46,
        0 <= digit < number.len(),
        48 <= number[digit] <= 57,
    ensures
        ({
            let bytes = before + number + seq![37u8];
            percentages(bytes, bytes.len() as int) == percentages(
                before,
                before.len() as int,
            ).push(number.map_values(|b: u8| b as char))
        }),
{
    let bytes = before + number + seq![37u8];
    let end = before.len() + number.len();
    lemma_number_start(before, number, number.len() as int);
    assert(percentage_start(bytes, end as int) == before.len());
    assert(bytes[end as int] == 37);
    assert(is_digit(bytes[before.len() + digit]));
    assert(is_marker(bytes, end as int));
    assert(percentage(bytes, end as int) =~= number);
    lemma_no_percent_sign(before, number, number.len() as int);
    law_later_output_comes_last(before, number + seq![37u8], before.len() as int);
    assert(before + (number + seq![37u8]) =~= bytes);
}

proof fn lemma_number_start(before: Seq<u8>, number: Seq<u8>, n: int)
    requires
        before.len() > 0 ==> !in_percentage(before.last()),
        forall|i: int| 0 <= i < number.len() ==> in_percentage(#[trigger] number[i]),
        0 <= n <= number.len(),
    ensures
        percentage_start(before + number + seq![37u8], before.len() + n) == before.len(),
    decreases n,
{
    let bytes = before + number + seq![37u8];
    if n > 0 {
        assert(bytes[before.len() + n - 1] == number[n - 1]);
        lemma_number_start(before, number, n - 1);
    } else if before.len() > 0 {
        assert(bytes[before.len() - 1] == before.last());
    }
}

proof fn lemma_no_percent_sign(before: Seq<u8>, number: Seq<u8>, n: int)
    requires
        forall|i: int| 0 <= i < number.len() ==> in_percentage(#[trigger] number[i]),
        0 <= n <= number.len(),
    ensures
        percentages(before + number + seq![37u8], before.len() + n) == percentages(
            before + number + seq![37u8],
            before.len() as int,
        ),
    decreases n,
{
    if n > 0 {
        assert((before + number + seq![37u8])[before.len() + n - 1] == number[n - 1]);
        lemma_no_percent_sign(before, number, n - 1);
    }
}

/// Any other byte adds no percentage, nor does a percent sign that stands behind
/// something else than a digit or a dot.
pub proof fn law_no_percentage(bytes: Seq<u8>, b: u8)
    ensures
        b != 37 || bytes.len() == 0 || !(48 <= bytes.last() <= 57 || bytes.last() == 46)
            ==> percentages(bytes.push(b), bytes.len() as int + 1) == percentages(
            bytes,
            bytes.len() as int,
        ),
        percentages(bytes, 0) == Seq::<Seq<char>>::empty(),
{
    law_later_output_comes_last(bytes, seq![b], bytes.len() as int);
    assert(bytes + seq![b] =~= bytes.push(b));
    let all = bytes.push(b);
    assert(all[bytes.len() as int] == b);
    if bytes.len() > 0 {
        assert(all[bytes.len() - 1] == bytes.last());
    }
}

/// Output of up to 4096 bytes is kept whole, and of more the last 1024 bytes.
pub proof fn law_how_much_is_kept(before: Seq<u8>, last: Seq<u8>)
    requires
        last.len() == 1024,
    ensures
        before.len() <= 3072 ==> kept_tail(before + last) == before + last,
        before.len() > 3072 ==> kept_tail(before + last) == last,
        kept_tail(last) == last,
{
    assert((before + last).skip(before.len() as int) =~= last);
}

} // verus!
