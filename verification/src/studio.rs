//! Text helpers of the developer studio: metric exposition lines, label and
//! log sanitising, health ranking, header decoding and trace turn labels.
use vstd::prelude::*;

use crate::managed_stream::{bounded_bytes, bounded_text};
use crate::providers::{trim_text, trimmed};
use crate::registry::str_equal;
use crate::string_set::StringSet;
use crate::text::push_char;

verus! {

/// The escape of one character inside a quoted exposition label.
pub open spec fn escape_char(c: char) -> Seq<char> {
    if c == '\\' {
        seq!['\\', '\\']
    } else if c == '"' {
        seq!['\\', '"']
    } else if c == '\n' {
        seq!['\\', 'n']
    } else {
        seq![c]
    }
}

/// A label value with backslashes, quotes and newlines escaped.
pub open spec fn escape_label(s: Seq<char>) -> Seq<char>
    decreases s.len(),
{
    if s.len() == 0 {
        Seq::empty()
    } else {
        escape_label(s.drop_last()) + escape_char(s.last())
    }
}

/// Escapes a text for use as a quoted exposition label value.
pub fn label(value: &str) -> (r: String)
    ensures
        r@ == escape_label(value@),
{
    broadcast use vstd::string::group_string_axioms;

    let mut out = String::new();
    for c in iter: value.chars()
        invariant
            iter.seq() == value@,
            out@ == escape_label(value@.take(iter.index() as int)),
    {
        let ghost i = iter.index();
        proof {
            assert(value@.take(i + 1).drop_last() =~= value@.take(i as int));
            assert(value@.take(i + 1).last() == c);
        }
        if c == '\\' {
            out.append("\\\\");
        } else if c == '"' {
            out.append("\\\"");
        } else if c == '\n' {
            out.append("\\n");
        } else {
            push_char(&mut out, c);
        }
        proof {
            reveal_strlit("\\\\");
            reveal_strlit("\\\"");
            reveal_strlit("\\n");
            assert(out@ =~= escape_label(value@.take(i + 1)));
        }
    }
    proof {
        assert(value@.take(value@.len() as int) =~= value@);
    }
    out
}

/// The characters of `s` without carriage returns and line feeds.
pub open spec fn without_line_breaks(s: Seq<char>) -> Seq<char>
    decreases s.len(),
{
    if s.len() == 0 {
        Seq::empty()
    } else if s.last() == '\r' || s.last() == '\n' {
        without_line_breaks(s.drop_last())
    } else {
        without_line_breaks(s.drop_last()).push(s.last())
    }
}

/// The most characters a log value keeps.
pub const MAX_LOG_CHARS: usize = 512;

/// A log-safe text: line breaks removed, at most 512 characters kept.
pub fn safe_log(value: &str) -> (r: String)
    ensures
        r@ == without_line_breaks(value@).take(
            if without_line_breaks(value@).len() < MAX_LOG_CHARS {
                without_line_breaks(value@).len() as int
            } else {
                MAX_LOG_CHARS as int
            },
        ),
{
    broadcast use vstd::string::group_string_axioms;

    let mut out = String::new();
    let mut kept: usize = 0;
    for c in iter: value.chars()
        invariant
            iter.seq() == value@,
            kept <= MAX_LOG_CHARS,
            kept == out@.len(),
            out@ == without_line_breaks(value@.take(iter.index() as int)).take(
                if without_line_breaks(value@.take(iter.index() as int)).len() < MAX_LOG_CHARS {
                    without_line_breaks(value@.take(iter.index() as int)).len() as int
                } else {
                    MAX_LOG_CHARS as int
                },
            ),
    {
        let ghost i = iter.index();
        let ghost before = without_line_breaks(value@.take(i as int));
        proof {
            assert(value@.take(i + 1).drop_last() =~= value@.take(i as int));
            assert(value@.take(i + 1).last() == c);
        }
        if c != '\r' && c != '\n' && kept < MAX_LOG_CHARS {
            push_char(&mut out, c);
            kept = kept + 1;
            proof {
                assert(without_line_breaks(value@.take(i + 1)) == before.push(c));
                assert(out@ =~= before.push(c).take(before.len() as int + 1));
            }
        } else {
            proof {
                let after = without_line_breaks(value@.take(i + 1));
                if c != '\r' && c != '\n' {
                    assert(after == before.push(c));
                    assert(after.take(MAX_LOG_CHARS as int) =~= before.take(MAX_LOG_CHARS as int));
                }
            }
        }
    }
    proof {
        assert(value@.take(value@.len() as int) =~= value@);
    }
    out
}

/// The rank of a health word: critical over warning over healthy over
/// anything else.
pub open spec fn health_rank(s: Seq<char>) -> int {
    if s == "critical"@ {
        3
    } else if s == "warning"@ {
        2
    } else if s == "healthy"@ {
        1
    } else {
        0
    }
}

fn rank_of(value: &str) -> (r: u8)
    ensures
        r == health_rank(value@),
{
    if str_equal(value, "critical") {
        3
    } else if str_equal(value, "warning") {
        2
    } else if str_equal(value, "healthy") {
        1
    } else {
        0
    }
}

/// The worse of two health words; the current one wins ties.
pub fn worst_health(current: &str, candidate: &str) -> (r: String)
    ensures
        r@ == if health_rank(candidate@) > health_rank(current@) {
            candidate@
        } else {
            current@
        },
{
    if rank_of(candidate) > rank_of(current) {
        candidate.to_owned()
    } else {
        current.to_owned()
    }
}

/// The value of an ASCII hexadecimal digit.
pub open spec fn hex_value(b: u8) -> Option<u8> {
    if 0x30 <= b <= 0x39 {
        Some((b - 0x30) as u8)
    } else if 0x61 <= b <= 0x66 {
        Some((b - 0x61 + 10) as u8)
    } else if 0x41 <= b <= 0x46 {
        Some((b - 0x41 + 10) as u8)
    } else {
        None
    }
}

fn hex_digit(b: u8) -> (r: Option<u8>)
    ensures
        r == hex_value(b),
{
    if 0x30 <= b && b <= 0x39 {
        Some(b - 0x30)
    } else if 0x61 <= b && b <= 0x66 {
        Some(b - 0x61 + 10)
    } else if 0x41 <= b && b <= 0x46 {
        Some(b - 0x41 + 10)
    } else {
        None
    }
}

/// The bytes from index `i` on with each `%XX` escape followed by at least
/// one more byte decoded.
pub open spec fn percent_decoded(b: Seq<u8>, i: int) -> Seq<u8>
    decreases b.len() - i,
{
    if i < 0 || i >= b.len() {
        Seq::empty()
    } else if b[i] == 0x25 && i + 2 < b.len() && hex_value(b[i + 1]) is Some && hex_value(b[i + 2]) is Some {
        seq![(hex_value(b[i + 1]).unwrap() * 16 + hex_value(b[i + 2]).unwrap()) as u8] + percent_decoded(b, i + 3)
    } else {
        seq![b[i]] + percent_decoded(b, i + 1)
    }
}

/// Builds a string from bytes through `String::from_utf8`, which the
/// standard library documents as succeeding exactly on valid UTF-8 and then
/// holding those bytes.
#[verifier::external_body]
fn string_from_utf8(bytes: Vec<u8>) -> (r: Option<String>)
    ensures
        r is Some <==> vstd::utf8::valid_utf8(bytes@),
        r matches Some(s) ==> vstd::utf8::encode_utf8(s@) == bytes@,
{
    String::from_utf8(bytes).ok()
}

/// Decodes `%XX` escapes; when the result is not UTF-8 the text is kept.
pub fn percent_decode(value: &str) -> (r: String)
    ensures
        r@ == percent_decode_text(value@),
        vstd::utf8::valid_utf8(percent_decoded(vstd::utf8::encode_utf8(value@), 0)) ==> vstd::utf8::encode_utf8(r@)
            == percent_decoded(vstd::utf8::encode_utf8(value@), 0),
{
    let bytes = value.as_bytes();
    let ghost b = bytes@;
    let mut decoded: Vec<u8> = Vec::new();
    let mut index: usize = 0;
    while index < bytes.len()
        invariant
            b == bytes@,
            0 <= index <= b.len(),
            percent_decoded(b, 0) == decoded@ + percent_decoded(b, index as int),
        decreases b.len() - index,
    {
        if bytes[index] == 0x25 && bytes.len() > 2 && index < bytes.len() - 2 {
            match (hex_digit(bytes[index + 1]), hex_digit(bytes[index + 2])) {
                (Some(high), Some(low)) => {
                    let ghost before = decoded@;
                    decoded.push(high * 16 + low);
                    proof {
                        assert(decoded@ + percent_decoded(b, index + 3) =~= before + percent_decoded(b, index as int));
                    }
                    index = index + 3;
                    continue;
                },
                _ => {},
            }
        }
        let ghost before = decoded@;
        decoded.push(bytes[index]);
        proof {
            assert(decoded@ + percent_decoded(b, index + 1) =~= before + percent_decoded(b, index as int));
        }
        index = index + 1;
    }
    proof {
        assert(decoded@ + percent_decoded(b, index as int) =~= decoded@);
    }
    match string_from_utf8(decoded) {
        Some(s) => {
            proof {
                vstd::utf8::encode_utf8_decode_utf8(s@);
            }
            s
        },
        None => value.to_owned(),
    }
}

/// Whether the UTF-8 bytes of `s` end with those of `suffix`.
pub open spec fn ends_with_bytes(s: Seq<char>, suffix: Seq<char>) -> bool {
    let b = vstd::utf8::encode_utf8(s);
    let x = vstd::utf8::encode_utf8(suffix);
    b.len() >= x.len() && b.subrange(b.len() - x.len(), b.len() as int) == x
}

fn ends_with(value: &str, suffix: &str) -> (r: bool)
    ensures
        r == ends_with_bytes(value@, suffix@),
{
    let b = value.as_bytes();
    let x = suffix.as_bytes();
    if b.len() < x.len() {
        return false;
    }
    let start = b.len() - x.len();
    let mut i: usize = 0;
    while i < x.len()
        invariant
            b@ == vstd::utf8::encode_utf8(value@),
            x@ == vstd::utf8::encode_utf8(suffix@),
            x@.len() <= b@.len(),
            b@.len() <= usize::MAX,
            start + x@.len() == b@.len(),
            0 <= i <= x@.len(),
            forall|k: int| 0 <= k < i ==> #[trigger] b@[start + k] == x@[k],
        decreases x@.len() - i,
    {
        if b[start + i] != x[i] {
            proof {
                assert(b@.subrange(start as int, b@.len() as int)[i as int] != x@[i as int]);
            }
            return false;
        }
        i = i + 1;
    }
    proof {
        assert forall|k: int| 0 <= k < x@.len() implies #[trigger] b@.subrange(start as int, b@.len() as int)[k] == x@[k] by {
            assert(b@[start + k] == x@[k]);
        }
        assert(b@.subrange(start as int, b@.len() as int) =~= x@);
    }
    true
}

/// Signal names that open a turn in a semantic trace.
pub open spec fn turn_start_name(name: Seq<char>) -> bool {
    ||| name == "muxiva.turn.started"@
    ||| name == "muxiva.voice.speech.started"@
    ||| ends_with_bytes(name, ".turn.started"@)
    ||| ends_with_bytes(name, ".speech.started"@)
}

/// Whether a signal name opens a turn.
pub fn is_turn_start(name: &str) -> (r: bool)
    ensures
        r == turn_start_name(name@),
{
    str_equal(name, "muxiva.turn.started") || str_equal(name, "muxiva.voice.speech.started") || ends_with(
        name,
        ".turn.started",
    ) || ends_with(name, ".speech.started")
}

/// The label of the turn a signal opens.
pub fn turn_label(name: &str) -> (r: &'static str)
    ensures
        r@ == if ends_with_bytes(name@, ".speech.started"@) {
            "Speech turn"@
        } else {
            "Turn"@
        },
{
    if ends_with(name, ".speech.started") {
        "Speech turn"
    } else {
        "Turn"
    }
}

/// Cuts a text to `limit` UTF-8 bytes at a character boundary and marks
/// the cut with an ellipsis.
pub fn truncate(value: &str, limit: usize) -> (r: String)
    ensures
        vstd::utf8::encode_utf8(value@).len() <= limit ==> r@ == value@,
        vstd::utf8::encode_utf8(value@).len() > limit ==> exists|kept: Seq<char>|
            vstd::utf8::encode_utf8(kept) == bounded_bytes(vstd::utf8::encode_utf8(value@), limit as int) && r@ == kept.push(
                '\u{2026}',
            ),
{
    if value.as_bytes().len() <= limit {
        return value.to_owned();
    }
    let mut text = bounded_text(value, limit);
    let ghost kept = text@;
    push_char(&mut text, '\u{2026}');
    text
}

/// The most bytes a trace summary keeps before its ellipsis.
pub const SUMMARY_BYTES: usize = 180;

/// A trace summary: the trimmed text, cut at 180 bytes.
pub fn summarize(value: &str) -> (r: String)
    ensures
        vstd::utf8::encode_utf8(trimmed(value@)).len() <= SUMMARY_BYTES ==> r@ == trimmed(value@),
        vstd::utf8::encode_utf8(trimmed(value@)).len() > SUMMARY_BYTES ==> exists|kept: Seq<char>|
            vstd::utf8::encode_utf8(kept) == bounded_bytes(vstd::utf8::encode_utf8(trimmed(value@)), SUMMARY_BYTES as int)
                && r@ == kept.push('\u{2026}'),
{
    let text = trim_text(value);
    truncate(text.as_str(), SUMMARY_BYTES)
}

/// The text of a label set: empty, or `{k="v",...}`.
pub open spec fn labels_text(labels: Seq<(Seq<char>, Seq<char>)>) -> Seq<char> {
    if labels.len() == 0 {
        Seq::empty()
    } else {
        "{"@ + label_pairs(labels) + "}"@
    }
}

/// `k="v"` pairs joined by commas.
pub open spec fn label_pairs(labels: Seq<(Seq<char>, Seq<char>)>) -> Seq<char>
    decreases labels.len(),
{
    if labels.len() == 0 {
        Seq::empty()
    } else if labels.len() == 1 {
        labels[0].0 + "=\""@ + labels[0].1 + "\""@
    } else {
        label_pairs(labels.drop_last()) + ","@ + labels.last().0 + "=\""@ + labels.last().1 + "\""@
    }
}

/// The exposition lines of one sample: a `# TYPE` line the first time the
/// name appears, then `name{labels} value`.
pub open spec fn metric_text(
    declared: bool,
    name: Seq<char>,
    kind: Seq<char>,
    labels: Seq<(Seq<char>, Seq<char>)>,
    value: Seq<char>,
) -> Seq<char> {
    (if declared {
        Seq::empty()
    } else {
        "# TYPE "@ + name + " "@ + kind + "\n"@
    }) + name + labels_text(labels) + " "@ + value + "\n"@
}

/// The views of label pairs.
pub open spec fn label_views(labels: Seq<(String, String)>) -> Seq<(Seq<char>, Seq<char>)> {
    labels.map_values(|l: (String, String)| (l.0@, l.1@))
}

/// Appends one sample in exposition format; `value` is the sample's
/// formatted number. Each metric name is declared once.
pub fn metric(
    output: &mut String,
    declared: &mut StringSet,
    name: &str,
    kind: &str,
    labels: &[(String, String)],
    value: &str,
)
    ensures
        final(output)@ == old(output)@ + metric_text(
            old(declared)@.contains(name@),
            name@,
            kind@,
            label_views(labels@),
            value@,
        ),
        final(declared)@.to_set() == old(declared)@.to_set().insert(name@),
{
    let ghost start = output@;
    let seen = declared.contains(name);
    if !seen {
        declared.insert(name.to_owned());
        output.append("# TYPE ");
        output.append(name);
        output.append(" ");
        output.append(kind);
        output.append("\n");
    } else {
        proof {
            assert(declared@.to_set() =~= declared@.to_set().insert(name@));
        }
    }
    let ghost head = output@;
    output.append(name);
    let ghost lv = label_views(labels@);
    if labels.len() > 0 {
        output.append("{");
        let ghost open = output@;
        let mut i: usize = 0;
        while i < labels.len()
            invariant
                lv == label_views(labels@),
                0 <= i <= labels@.len(),
                i > 0 ==> output@ == open + label_pairs(lv.take(i as int)),
                i == 0 ==> output@ == open,
            decreases labels@.len() - i,
        {
            let ghost prev = output@;
            if i > 0 {
                output.append(",");
            }
            output.append(labels[i].0.as_str());
            output.append("=\"");
            output.append(labels[i].1.as_str());
            output.append("\"");
            proof {
                assert(lv.take(i + 1).drop_last() =~= lv.take(i as int));
                assert(lv.take(i + 1).last() == lv[i as int]);
                if i == 0 {
                    assert(output@ =~= open + label_pairs(lv.take(1)));
                } else {
                    assert(output@ =~= open + label_pairs(lv.take(i + 1)));
                }
            }
            i = i + 1;
        }
        output.append("}");
        proof {
            assert(lv.take(lv.len() as int) =~= lv);
            assert(output@ =~= head + name@ + labels_text(lv));
        }
    } else {
        proof {
            assert(output@ =~= head + name@ + labels_text(lv));
        }
    }
    output.append(" ");
    output.append(value);
    output.append("\n");
    proof {
        assert(output@ =~= start + metric_text(!!seen, name@, kind@, lv, value@));
    }
}


/// The text of a percent-decoded value: the decoded bytes when they are
/// UTF-8, otherwise the value itself.
pub open spec fn percent_decode_text(v: Seq<char>) -> Seq<char> {
    let d = percent_decoded(vstd::utf8::encode_utf8(v), 0);
    if vstd::utf8::valid_utf8(d) {
        vstd::utf8::decode_utf8(d)
    } else {
        v
    }
}

/// The comma-separated parts of `rest`, the first continuing `cur`.
pub open spec fn split_commas(cur: Seq<char>, rest: Seq<char>) -> Seq<Seq<char>>
    decreases rest.len(),
{
    if rest.len() == 0 {
        seq![cur]
    } else if rest[0] == ',' {
        seq![cur] + split_commas(Seq::empty(), rest.drop_first())
    } else {
        split_commas(cur.push(rest[0]), rest.drop_first())
    }
}

/// The first `=` at or after `i`.
pub open spec fn first_equals(s: Seq<char>, i: int) -> Option<int>
    decreases s.len() - i,
{
    if i < 0 || i >= s.len() {
        None
    } else if s[i] == '=' {
        Some(i)
    } else {
        first_equals(s, i + 1)
    }
}

/// The header a `name=value` part gives: both trimmed, the name non-empty,
/// the value free of line breaks and percent-decoded.
pub open spec fn header_of(part: Seq<char>) -> Option<(Seq<char>, Seq<char>)> {
    match first_equals(part, 0) {
        None => None,
        Some(i) => {
            let name = trimmed(part.take(i));
            let value = trimmed(part.skip(i + 1));
            if name.len() > 0 && !value.contains('\r') && !value.contains('\n') {
                Some((name, percent_decode_text(value)))
            } else {
                None
            }
        },
    }
}

/// The headers that the parts give, in order.
pub open spec fn headers_of(parts: Seq<Seq<char>>) -> Seq<(Seq<char>, Seq<char>)>
    decreases parts.len(),
{
    if parts.len() == 0 {
        Seq::empty()
    } else {
        match header_of(parts.last()) {
            Some(h) => headers_of(parts.drop_last()).push(h),
            None => headers_of(parts.drop_last()),
        }
    }
}

/// The headers of an exporter header list `name=value,name=value`.
pub open spec fn parsed_headers(s: Seq<char>) -> Seq<(Seq<char>, Seq<char>)> {
    headers_of(split_commas(Seq::empty(), s))
}

fn header_from_part(part: &str) -> (r: Option<(String, String)>)
    ensures
        match header_of(part@) {
            None => r is None,
            Some(h) => r matches Some(x) && x.0@ == h.0 && x.1@ == h.1,
        },
{
    broadcast use vstd::string::group_string_axioms;

    let n = part.unicode_len();
    let mut i: usize = 0;
    while i < n && part.get_char(i) != '='
        invariant
            n == part@.len(),
            0 <= i <= n,
            first_equals(part@, 0) == first_equals(part@, i as int),
        decreases n - i,
    {
        i = i + 1;
    }
    if i == n {
        return None;
    }
    let name = trim_text(part.substring_char(0, i));
    let value = trim_text(part.substring_char(i + 1, n));
    proof {
        assert(part@.subrange(0, i as int) =~= part@.take(i as int));
        assert(part@.subrange(i + 1, n as int) =~= part@.skip(i + 1));
    }
    if name.as_str().unicode_len() == 0 {
        return None;
    }
    let mut broken = false;
    for c in iter: value.as_str().chars()
        invariant
            iter.seq() == value@,
            broken == exists|k: int| 0 <= k < iter.index() && (value@[k] == '\r' || value@[k] == '\n'),
    {
        if c == '\r' || c == '\n' {
            broken = true;
        }
    }
    proof {
        if !broken {
            assert(!value@.contains('\r'));
            assert(!value@.contains('\n'));
        } else {
            let k = choose|k: int| 0 <= k < value@.len() && (value@[k] == '\r' || value@[k] == '\n');
            assert(value@[k] == '\r' ==> value@.contains('\r'));
            assert(value@[k] == '\n' ==> value@.contains('\n'));
        }
    }
    if broken {
        return None;
    }
    let decoded = percent_decode(value.as_str());
    Some((name, decoded))
}

/// Parses an exporter header list `name=value,name=value`: parts without
/// `=`, with an empty name or with a line break in the value are skipped;
/// values are percent-decoded.
pub fn parse_headers(value: &str) -> (r: Vec<(String, String)>)
    ensures
        label_views(r@) == parsed_headers(value@),
{
    broadcast use vstd::string::group_string_axioms;

    let mut out: Vec<(String, String)> = Vec::new();
    let mut cur = String::new();
    let ghost mut done: Seq<Seq<char>> = Seq::empty();
    proof {
        assert(value@.skip(0) =~= value@);
    }
    for c in iter: value.chars()
        invariant
            iter.seq() == value@,
            split_commas(Seq::empty(), value@) == done + split_commas(cur@, value@.skip(iter.index() as int)),
            label_views(out@) == headers_of(done),
    {
        let ghost rest = value@.skip(iter.index() as int);
        proof {
            assert(rest[0] == c);
            assert(rest.drop_first() =~= value@.skip(iter.index() + 1));
        }
        if c == ',' {
            let part = cur;
            cur = String::new();
            let ghost before_done = done;
            let ghost before_out = label_views(out@);
            match header_from_part(part.as_str()) {
                Some(h) => {
                    out.push(h);
                },
                None => {},
            }
            proof {
                done = done.push(part@);
                assert(done.drop_last() =~= before_done);
                assert(done.last() == part@);
                assert(label_views(out@) =~= headers_of(done));
                assert(done + split_commas(cur@, rest.drop_first()) =~= before_done + (seq![part@] + split_commas(
                    Seq::empty(),
                    rest.drop_first(),
                )));
            }
        } else {
            push_char(&mut cur, c);
        }
    }
    proof {
        assert(value@.skip(value@.len() as int) =~= Seq::<char>::empty());
    }
    let ghost before_done = done;
    match header_from_part(cur.as_str()) {
        Some(h) => {
            out.push(h);
        },
        None => {},
    }
    proof {
        done = done.push(cur@);
        assert(done.drop_last() =~= before_done);
        assert(label_views(out@) =~= headers_of(done));
        assert(split_commas(Seq::empty(), value@) =~= done);
    }
    out
}

} // verus!
