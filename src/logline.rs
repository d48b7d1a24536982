use vstd::prelude::*;
use crate::stamp::{Stamp, stamp_lt, stamp_of, parse_stamp, stamp_less};
use vstd::utf8::{
    encode_utf8, decode_utf8, is_char_boundary, is_char_boundary_iff_not_is_continuation_byte,
    is_ascii_chars, valid_utf8,
};

verus! {

/// Number of characters in the timestamp that opens a log line.
pub const DATE_LEN: usize = 25;

/// Three-way lexicographic comparison of texts by code point, the order of
/// `String`: negative, zero or positive.
pub open spec fn chars_cmp(a: Seq<char>, b: Seq<char>) -> int
    decreases a.len(),
{
    if a.len() == 0 {
        if b.len() == 0 { 0 } else { -1 }
    } else if b.len() == 0 {
        1
    } else if a[0] == b[0] {
        chars_cmp(a.drop_first(), b.drop_first())
    } else if (a[0] as u32) < (b[0] as u32) {
        -1
    } else {
        1
    }
}

/// The comparison of texts gives -1, 0 or 1, gives 0 only for equal texts,
/// and turns its sign when the texts swap places.
pub proof fn lemma_chars_cmp_range(a: Seq<char>, b: Seq<char>)
    ensures
        -1 <= chars_cmp(a, b) <= 1,
        chars_cmp(a, b) == 0 <==> a == b,
        chars_cmp(a, b) == -chars_cmp(b, a),
    decreases a.len(),
{
    if a.len() > 0 && b.len() > 0 && a[0] == b[0] {
        lemma_chars_cmp_range(a.drop_first(), b.drop_first());
        assert(a =~= seq![a[0]] + a.drop_first());
        assert(b =~= seq![b[0]] + b.drop_first());
        if a == b {
            assert(a.drop_first() == b.drop_first());
        }
    } else if a.len() > 0 && b.len() > 0 {
        vstd::utf8::char_u32_cast(a[0], a[0] as u32);
        vstd::utf8::char_u32_cast(b[0], b[0] as u32);
        assert(a[0] != b[0]);
        assert(a != b);
    } else if a.len() != b.len() {
        assert(a != b);
    } else {
        assert(a =~= b);
    }
}

/// The order of texts is transitive.
pub proof fn lemma_chars_cmp_trans(a: Seq<char>, b: Seq<char>, c: Seq<char>)
    requires
        chars_cmp(a, b) < 0,
        chars_cmp(b, c) < 0,
    ensures
        chars_cmp(a, c) < 0,
    decreases a.len(),
{
    if a.len() > 0 && b.len() > 0 && c.len() > 0 && a[0] == b[0] && b[0] == c[0] {
        lemma_chars_cmp_trans(a.drop_first(), b.drop_first(), c.drop_first());
    }
}

/// Compares two texts by code point, as `chars_cmp` does.
pub fn compare_text(a: &str, b: &str) -> (r: i8)
    ensures
        r as int == chars_cmp(a@, b@),
{
    let la = a.unicode_len();
    let lb = b.unicode_len();
    let mut i: usize = 0;
    assert(a@.skip(0) =~= a@);
    assert(b@.skip(0) =~= b@);
    while i < la && i < lb
        invariant
            la == a@.len(),
            lb == b@.len(),
            i <= la,
            i <= lb,
            chars_cmp(a@, b@) == chars_cmp(a@.skip(i as int), b@.skip(i as int)),
        decreases la - i,
    {
        let ca = a.get_char(i);
        let cb = b.get_char(i);
        if ca != cb {
            if (ca as u32) < (cb as u32) {
                return -1;
            } else {
                return 1;
            }
        }
        assert(a@.skip(i as int).drop_first() =~= a@.skip(i + 1));
        assert(b@.skip(i as int).drop_first() =~= b@.skip(i + 1));
        i = i + 1;
    }
    if i < la {
        1
    } else if i < lb {
        -1
    } else {
        0
    }
}

/// The model of a log line: its stamp, its date text and its content.
pub type LineView = (Stamp, Seq<char>, Seq<char>);

/// One entry of a log file.
pub struct LogLine {
    pub date: Stamp,
    pub date_str: String,
    pub content: String,
}

impl View for LogLine {
    type V = LineView;

    open spec fn view(&self) -> LineView {
        (self.date, self.date_str@, self.content@)
    }
}

/// The order of log lines: by stamp, then date text, then content.
pub open spec fn line_lt(x: LineView, y: LineView) -> bool {
    stamp_lt(x.0, y.0) || (x.0 == y.0 && (chars_cmp(x.1, y.1) < 0 || (x.1 == y.1
        && chars_cmp(x.2, y.2) < 0)))
}

/// The order of log lines is transitive.
pub proof fn lemma_line_lt_trans(x: LineView, y: LineView, z: LineView)
    requires
        line_lt(x, y),
        line_lt(y, z),
    ensures
        line_lt(x, z),
{
    if x.0 == y.0 && y.0 == z.0 {
        if chars_cmp(x.1, y.1) < 0 && chars_cmp(y.1, z.1) < 0 {
            lemma_chars_cmp_trans(x.1, y.1, z.1);
        } else if x.1 == y.1 && y.1 == z.1 {
            lemma_chars_cmp_trans(x.2, y.2, z.2);
        }
    }
}

/// The order of log lines is strict and total: no line comes before itself,
/// and of two different lines one comes first.
pub proof fn lemma_line_lt_total(x: LineView, y: LineView)
    ensures
        !line_lt(x, x),
        line_lt(x, y) ==> !line_lt(y, x),
        x != y ==> line_lt(x, y) || line_lt(y, x),
{
    lemma_chars_cmp_range(x.1, y.1);
    lemma_chars_cmp_range(x.2, y.2);
    lemma_chars_cmp_range(x.1, x.1);
    lemma_chars_cmp_range(x.2, x.2);
}

/// Compares two log lines: negative, zero or positive as the first comes
/// before, equals or comes after the second.
pub fn compare_lines(a: &LogLine, b: &LogLine) -> (r: i8)
    ensures
        r < 0 <==> line_lt(a@, b@),
        r == 0 <==> a@ == b@,
        r > 0 <==> line_lt(b@, a@),
{
    proof {
        lemma_line_lt_total(a@, b@);
    }
    if stamp_less(a.date, b.date) {
        return -1;
    }
    if stamp_less(b.date, a.date) {
        return 1;
    }
    let c = compare_text(a.date_str.as_str(), b.date_str.as_str());
    proof {
        lemma_chars_cmp_range(a@.1, b@.1);
    }
    if c != 0 {
        return c;
    }
    let d = compare_text(a.content.as_str(), b.content.as_str());
    proof {
        lemma_chars_cmp_range(a@.2, b@.2);
    }
    d
}

/// The date text of a line: its first `DATE_LEN` bytes.
pub open spec fn date_text(s: Seq<char>) -> Seq<char> {
    decode_utf8(encode_utf8(s).subrange(0, DATE_LEN as int))
}

/// The content of a line: what follows the byte after the date.
pub open spec fn content_text(s: Seq<char>) -> Seq<char> {
    let b = encode_utf8(s);
    decode_utf8(b.subrange(DATE_LEN + 1, b.len() as int))
}

/// Whether a line can be cut into a date text, one separator byte and the
/// content: it is longer than `DATE_LEN` bytes, and both cuts fall between
/// characters.
pub open spec fn well_shaped(s: Seq<char>) -> bool {
    let b = encode_utf8(s);
    b.len() > DATE_LEN && is_char_boundary(b, DATE_LEN as int) && is_char_boundary(
        b,
        DATE_LEN + 1,
    )
}

/// Whether a text reads as a log line: it is well shaped and its date text
/// is a date in the timestamp format.
pub open spec fn is_log_line(s: Seq<char>) -> bool {
    well_shaped(s) && stamp_of(date_text(s)) is Some
}

/// The line that a text and the stamp of its date give.
pub open spec fn line_with(s: Seq<char>, date: Stamp) -> LineView {
    (date, date_text(s), content_text(s))
}

/// The log line that a text reads as, if any.
pub open spec fn line_of(s: Seq<char>) -> Option<LineView> {
    if is_log_line(s) {
        Some(line_with(s, stamp_of(date_text(s))->0))
    } else {
        None
    }
}

/// Whether the byte after the date is a space.
pub open spec fn space_separated(s: Seq<char>) -> bool {
    encode_utf8(s)[DATE_LEN as int] == 32
}

/// A line whose date is followed by a space is its date text, a space and
/// its content: printing an entry so gives back the line it was read from.
pub proof fn lemma_line_round_trip(s: Seq<char>)
    requires
        well_shaped(s),
        space_separated(s),
    ensures
        s == date_text(s) + seq![' '] + content_text(s),
{
    broadcast use vstd::utf8::group_utf8_lib;

    let b = encode_utf8(s);
    let rest = b.subrange(DATE_LEN as int, b.len() as int);
    assert(decode_utf8(b) =~= date_text(s) + decode_utf8(rest));
    assert(valid_utf8(rest));
    assert(is_char_boundary(rest, 1)) by {
        if rest.len() > 1 {
            is_char_boundary_iff_not_is_continuation_byte(b, DATE_LEN + 1);
            assert(rest[1] == b[DATE_LEN + 1]);
            is_char_boundary_iff_not_is_continuation_byte(rest, 1);
        } else {
            assert(rest.len() == 1);
        }
    }
    assert(rest.subrange(1, rest.len() as int) =~= b.subrange(DATE_LEN + 1, b.len() as int));
    assert(decode_utf8(rest) =~= decode_utf8(rest.subrange(0, 1)) + content_text(s));
    let sp = rest.subrange(0, 1);
    let space = seq![' '];
    assert(is_ascii_chars(space));
    assert(sp =~= encode_utf8(space));
    assert(decode_utf8(sp) == space);
}

/// Builds the log line of a well-shaped text whose date has been read as `date`.
pub fn logline_with_date(line: &str, date: Stamp) -> (r: LogLine)
    requires
        well_shaped(line@),
    ensures
        r@ == line_with(line@, date),
{
    broadcast use vstd::utf8::group_utf8_lib;

    let (date_part, _) = line.split_at(DATE_LEN);
    let (_, content) = line.split_at(DATE_LEN + 1);
    assert(decode_utf8(encode_utf8(date_part@)) == date_part@);
    assert(decode_utf8(encode_utf8(content@)) == content@);
    LogLine { date, date_str: String::from_str(date_part), content: String::from_str(content) }
}

/// Reads a log line: a timestamp of `DATE_LEN` bytes, one separator byte,
/// and the content.
pub fn create_logline(line: &str) -> (r: LogLine)
    requires
        is_log_line(line@),
    ensures
        Some(r@) == line_of(line@),
{
    broadcast use vstd::utf8::group_utf8_lib;

    let (date_part, _) = line.split_at(DATE_LEN);
    assert(decode_utf8(encode_utf8(date_part@)) == date_part@);
    let date = parse_stamp(date_part).unwrap();
    logline_with_date(line, date)
}

/// Reads a log line where the text is one, and gives nothing otherwise.
pub fn read_logline(line: &str) -> (r: Option<LogLine>)
    ensures
        r is Some <==> is_log_line(line@),
        r matches Some(l) ==> Some(l@) == line_of(line@),
{
    broadcast use vstd::utf8::group_utf8_lib;

    if line.as_bytes().len() <= DATE_LEN {
        return None;
    }
    if !line.is_char_boundary(DATE_LEN) || !line.is_char_boundary(DATE_LEN + 1) {
        return None;
    }
    let (date_part, _) = line.split_at(DATE_LEN);
    assert(decode_utf8(encode_utf8(date_part@)) == date_part@);
    if parse_stamp(date_part).is_some() {
        Some(create_logline(line))
    } else {
        None
    }
}

} // verus!
