//! The project `.env` file of provider credentials: reading its
//! `KEY=value` lines and writing them back.
use vstd::prelude::*;

use crate::providers::{trim_end_index, trim_start_index, trim_text, trimmed};
use crate::registry::is_unicode_whitespace;
use crate::text::{decimal_digits, push_char, u64_decimal};

verus! {

/// The lowercase hexadecimal digit for `d` below 16.
pub open spec fn lower_hex_digit(d: nat) -> char {
    if d < 10 {
        (48 + d) as char
    } else {
        (87 + d) as char
    }
}

/// How `serde_json` writes one character inside a string literal: `"` and
/// `\` behind a backslash, backspace, form feed, line feed, carriage return
/// and tab as `\b`, `\f`, `\n`, `\r`, `\t`, every other character below
/// 0x20 as `\u00` and two lowercase hexadecimal digits, all else as it is.
pub open spec fn json_escape(c: char) -> Seq<char> {
    if c == '"' {
        seq!['\\', '"']
    } else if c == '\\' {
        seq!['\\', '\\']
    } else if c == '\u{8}' {
        seq!['\\', 'b']
    } else if c == '\u{c}' {
        seq!['\\', 'f']
    } else if c == '\n' {
        seq!['\\', 'n']
    } else if c == '\r' {
        seq!['\\', 'r']
    } else if c == '\t' {
        seq!['\\', 't']
    } else if (c as u32) < 0x20 {
        seq!['\\', 'u', '0', '0', lower_hex_digit((c as u32 / 16) as nat), lower_hex_digit((c as u32 % 16) as nat)]
    } else {
        seq![c]
    }
}

/// The characters of a text, each written as `json_escape` writes it.
pub open spec fn json_escaped(value: Seq<char>) -> Seq<char>
    decreases value.len(),
{
    if value.len() == 0 {
        Seq::empty()
    } else {
        json_escape(value[0]) + json_escaped(value.drop_first())
    }
}

/// The JSON string literal that `serde_json` writes for a text: the escaped
/// characters between double quotes.
pub open spec fn json_string_text(value: Seq<char>) -> Seq<char> {
    seq!['"'] + json_escaped(value) + seq!['"']
}

/// The text that `serde_json` reads from a JSON string literal, if the input
/// is one.
pub uninterp spec fn json_string_parsed(raw: Seq<char>) -> Option<Seq<char>>;

/// Writes `value` as a JSON string literal through `serde_json::to_string`.
/// The contract claims that writing a text succeeds and gives the literal
/// that `json_string_text` describes: `serde_json` serializes a `str` by
/// escaping it, byte by byte from its escape table, into a byte vector, and
/// its only failure there is a failed write, which a vector does not
/// report. It also claims that `serde_json` reads that literal back as the
/// same text: its string reader turns each of these escapes back into the
/// character escaped and copies every other character.
#[verifier::external_body]
fn json_quote(value: &str) -> (r: Result<String, String>)
    ensures
        r is Ok,
        r matches Ok(t) ==> t@ == json_string_text(value@),
        r matches Ok(t) ==> json_string_parsed(t@) == Some(value@),
{
    match serde_json::to_string(value) {
        Ok(text) => Ok(text),
        Err(error) => Err(error.to_string()),
    }
}

/// Reads a JSON string literal through `serde_json::from_str::<String>`. The
/// contract claims only that the outcome is a function of the input.
#[verifier::external_body]
fn json_unquote(raw: &str) -> (r: Option<String>)
    ensures
        match r {
            Some(v) => json_string_parsed(raw@) == Some(v@),
            None => json_string_parsed(raw@) is None,
        },
{
    match serde_json::from_str::<String>(raw) {
        Ok(value) => Some(value),
        Err(_) => None,
    }
}

/// The index of the first `c` in `s` at or after `i`.
pub open spec fn find_char(s: Seq<char>, c: char, i: int) -> Option<int>
    decreases s.len() - i,
{
    if i < 0 || i >= s.len() {
        None
    } else if s[i] == c {
        Some(i)
    } else {
        find_char(s, c, i + 1)
    }
}

/// The lines of a text as `str::lines` gives them: split after each line
/// feed, without the feed or a carriage return right before it; a final
/// line feed ends the last line.
pub open spec fn text_lines(s: Seq<char>) -> Seq<Seq<char>>
    decreases s.len(),
{
    if s.len() == 0 {
        Seq::empty()
    } else {
        match find_char(s, '\n', 0) {
            Some(i) => {
                proof {
                    lemma_find_char_bounds(s, '\n', 0);
                }
                let line = s.take(i);
                let line = if line.len() > 0 && line.last() == '\r' {
                    line.drop_last()
                } else {
                    line
                };
                seq![line] + text_lines(s.skip(i + 1))
            },
            None => seq![s],
        }
    }
}

/// Whether a character may appear in a `.env` key.
pub open spec fn key_char(c: char) -> bool {
    ('A' <= c <= 'Z') || ('0' <= c <= '9') || c == '_'
}

/// What one `.env` line holds.
pub enum LineContent {
    /// A blank or comment line.
    Skip,
    /// A key and its value.
    Entry(Seq<char>, Seq<char>),
    /// No `=` on the line.
    NoEquals,
    /// The key is empty or holds a character other than `A`-`Z`, `0`-`9`, `_`.
    BadKey,
    /// The value starts with `"` but is no JSON string.
    BadQuote,
}

/// Reads one `.env` line: blank lines and `#` comments are skipped; the
/// rest is `KEY=value`, split at the first `=`, key and value trimmed, a
/// value starting with `"` read as a JSON string.
pub open spec fn line_content(line: Seq<char>) -> LineContent {
    let t = trimmed(line);
    if t.len() == 0 || t[0] == '#' {
        LineContent::Skip
    } else {
        match find_char(t, '=', 0) {
            None => LineContent::NoEquals,
            Some(i) => {
                let key = trimmed(t.take(i));
                let raw = trimmed(t.skip(i + 1));
                if key.len() == 0 || !(forall|j: int| 0 <= j < key.len() ==> key_char(#[trigger] key[j])) {
                    LineContent::BadKey
                } else if raw.len() > 0 && raw[0] == '"' {
                    match json_string_parsed(raw) {
                        Some(v) => LineContent::Entry(key, v),
                        None => LineContent::BadQuote,
                    }
                } else {
                    LineContent::Entry(key, raw)
                }
            },
        }
    }
}

/// The error for line `n` (counted from one) of `source` that fails with
/// `problem`.
pub open spec fn line_error(source: Seq<char>, n: nat, problem: Seq<char>) -> Seq<char> {
    source + ":"@ + decimal_digits(n) + problem
}

/// The entries of the first `n` lines in order, or the first failing line
/// and its error text.
pub open spec fn parse_lines(source: Seq<char>, lines: Seq<Seq<char>>, n: int) -> Result<Seq<(Seq<char>, Seq<char>)>, Seq<char>>
    decreases n,
{
    if n <= 0 {
        Ok(Seq::empty())
    } else {
        match parse_lines(source, lines, n - 1) {
            Err(e) => Err(e),
            Ok(entries) => match line_content(lines[n - 1]) {
                LineContent::Skip => Ok(entries),
                LineContent::Entry(k, v) => Ok(entries.push((k, v))),
                LineContent::NoEquals => Err(line_error(source, n as nat, " must use KEY=value"@)),
                LineContent::BadKey => Err(line_error(source, n as nat, " has an invalid key"@)),
                LineContent::BadQuote => Err(line_error(source, n as nat, " has an invalid quoted value"@)),
            },
        }
    }
}

/// The views of key/value pairs.
pub open spec fn pair_views(ps: Seq<(String, String)>) -> Seq<(Seq<char>, Seq<char>)> {
    ps.map_values(|p: (String, String)| (p.0@, p.1@))
}

/// Splits a text into its lines (see `text_lines`).
pub fn split_lines(text: &str) -> (r: Vec<String>)
    ensures
        r@.map_values(|s: String| s@) == text_lines(text@),
{
    let n = text.unicode_len();
    let mut lines: Vec<String> = Vec::new();
    let mut start: usize = 0;
    let mut current = String::new();
    let mut i: usize = 0;
    proof {
        assert(text@.skip(0) =~= text@);
    }
    while i < n
        invariant
            n == text@.len(),
            0 <= start <= i <= n,
            current@ == text@.subrange(start as int, i as int),
            find_char(text@.skip(start as int), '\n', 0) is None || find_char(text@.skip(start as int), '\n', 0)
                == find_char(text@.skip(start as int), '\n', i - start),
            forall|j: int| start <= j < i ==> text@[j] != '\n',
            lines@.map_values(|s: String| s@) + text_lines(text@.skip(start as int)) == text_lines(text@),
        decreases n - i,
    {
        let c = text.get_char(i);
        let ghost rest = text@.skip(start as int);
        if c == '\n' {
            proof {
                lemma_find_char_here(rest, '\n', 0, i - start);
                assert(rest.take(i - start) =~= current@);
                assert(rest.skip(i - start + 1) =~= text@.skip(i + 1));
            }
            let line = if current.unicode_len() > 0 && current.get_char(current.unicode_len() - 1) == '\r' {
                current.substring_char(0, current.unicode_len() - 1).to_owned()
            } else {
                current
            };
            proof {
                let l = rest.take(i - start);
                let expect = if l.len() > 0 && l.last() == '\r' {
                    l.drop_last()
                } else {
                    l
                };
                assert(line@ =~= expect);
                assert(text_lines(rest) == seq![expect] + text_lines(rest.skip(i - start + 1)));
                assert(lines@.push(line).map_values(|s: String| s@) =~= lines@.map_values(|s: String| s@).push(
                    line@,
                ));
            }
            lines.push(line);
            current = String::new();
            start = i + 1;
            proof {
                assert(current@ =~= text@.subrange(start as int, (i + 1) as int));
            }
        } else {
            push_char(&mut current, c);
            proof {
                assert(current@ =~= text@.subrange(start as int, i + 1));
            }
        }
        i = i + 1;
    }
    if start < n {
        let ghost rest = text@.skip(start as int);
        proof {
            lemma_find_char_absent(rest, '\n', 0);
            assert(current@ =~= rest);
            assert(lines@.push(current).map_values(|s: String| s@) =~= lines@.map_values(|s: String| s@).push(
                current@,
            ));
        }
        lines.push(current);
    } else {
        proof {
            assert(text@.skip(start as int).len() == 0);
            assert(lines@.map_values(|s: String| s@) + Seq::<Seq<char>>::empty() =~= lines@.map_values(
                |s: String| s@,
            ));
        }
    }
    lines
}

proof fn lemma_find_char_here(s: Seq<char>, c: char, i: int, k: int)
    requires
        0 <= i <= k < s.len(),
        s[k] == c,
        forall|j: int| i <= j < k ==> s[j] != c,
    ensures
        find_char(s, c, i) == Some(k),
    decreases k - i,
{
    if i < k {
        lemma_find_char_here(s, c, i + 1, k);
    }
}

proof fn lemma_find_char_absent(s: Seq<char>, c: char, i: int)
    requires
        0 <= i <= s.len(),
        forall|j: int| i <= j < s.len() ==> s[j] != c,
    ensures
        find_char(s, c, i) is None,
    decreases s.len() - i,
{
    if i < s.len() {
        lemma_find_char_absent(s, c, i + 1);
    }
}

/// Finds the first `c` in `s`.
fn find_in(s: &str, c: char) -> (r: Option<usize>)
    ensures
        match r {
            Some(i) => find_char(s@, c, 0) == Some(i as int),
            None => find_char(s@, c, 0) is None,
        },
{
    let n = s.unicode_len();
    let mut i: usize = 0;
    while i < n
        invariant
            n == s@.len(),
            0 <= i <= n,
            forall|j: int| 0 <= j < i ==> s@[j] != c,
        decreases n - i,
    {
        if s.get_char(i) == c {
            proof {
                lemma_find_char_here(s@, c, 0, i as int);
            }
            return Some(i);
        }
        i = i + 1;
    }
    proof {
        lemma_find_char_absent(s@, c, 0);
    }
    None
}

/// The outcome of one line, with the key and value of an entry.
pub enum LineOutcome {
    Skip,
    Entry(String, String),
    NoEquals,
    BadKey,
    BadQuote,
}

/// Whether an outcome is what a line holds.
pub open spec fn outcome_matches(o: LineOutcome, c: LineContent) -> bool {
    match (o, c) {
        (LineOutcome::Skip, LineContent::Skip) => true,
        (LineOutcome::Entry(k, v), LineContent::Entry(k2, v2)) => k@ == k2 && v@ == v2,
        (LineOutcome::NoEquals, LineContent::NoEquals) => true,
        (LineOutcome::BadKey, LineContent::BadKey) => true,
        (LineOutcome::BadQuote, LineContent::BadQuote) => true,
        _ => false,
    }
}

/// Whether a `.env` key is non-empty and made of `A`-`Z`, `0`-`9` and `_`.
fn valid_key(ks: &str) -> (r: bool)
    ensures
        r == (ks@.len() > 0 && forall|j: int| 0 <= j < ks@.len() ==> key_char(#[trigger] ks@[j])),
{
    let kn = ks.unicode_len();
    if kn == 0 {
        return false;
    }
    let mut j: usize = 0;
    while j < kn
        invariant
            kn == ks@.len(),
            0 <= j <= kn,
            forall|q: int| 0 <= q < j ==> key_char(#[trigger] ks@[q]),
        decreases kn - j,
    {
        let c = ks.get_char(j);
        if !(('A' <= c && c <= 'Z') || ('0' <= c && c <= '9') || c == '_') {
            proof {
                assert(!key_char(ks@[j as int]));
            }
            return false;
        }
        j = j + 1;
    }
    true
}

/// Reads one `.env` line (see `line_content`).
pub fn parse_line(line: &str) -> (r: LineOutcome)
    ensures
        outcome_matches(r, line_content(line@)),
{
    let t = trim_text(line);
    let ts = t.as_str();
    if ts.unicode_len() == 0 || ts.get_char(0) == '#' {
        return LineOutcome::Skip;
    }
    let i = match find_in(ts, '=') {
        Some(i) => i,
        None => return LineOutcome::NoEquals,
    };
    proof {
        lemma_find_char_bounds(ts@, '=', 0);
    }
    let key = trim_text(ts.substring_char(0, i));
    let raw = trim_text(ts.substring_char(i + 1, ts.unicode_len()));
    proof {
        assert(ts@.subrange(0, i as int) =~= ts@.take(i as int));
        assert(ts@.subrange(i + 1, ts@.len() as int) =~= ts@.skip(i + 1));
    }
    if !valid_key(key.as_str()) {
        return LineOutcome::BadKey;
    }
    let rs = raw.as_str();
    if rs.unicode_len() > 0 && rs.get_char(0) == '"' {
        match json_unquote(rs) {
            Some(v) => LineOutcome::Entry(key, v),
            None => LineOutcome::BadQuote,
        }
    } else {
        LineOutcome::Entry(key, raw)
    }
}

/// A found character lies within the text, at or after where the search
/// began.
pub proof fn lemma_find_char_bounds(s: Seq<char>, c: char, i: int)
    requires
        0 <= i,
    ensures
        find_char(s, c, i) matches Some(k) ==> i <= k < s.len() && s[k] == c,
    decreases s.len() - i,
{
    if i < s.len() && s[i] != c {
        lemma_find_char_bounds(s, c, i + 1);
    }
}

fn located_error(source: &str, number: usize, problem: &str) -> (r: String)
    ensures
        r@ == line_error(source@, number as nat, problem@),
{
    let mut message = source.to_owned();
    message.append(":");
    let digits = u64_decimal(number as u64);
    message.append(digits.as_str());
    message.append(problem);
    message
}

/// Reads the `KEY=value` entries of a `.env` text in file order (a later
/// entry for a key overrides an earlier one). A malformed line fails with
/// `source:line` and what is wrong with it.
pub fn parse_dotenv(source: &str, text: &str) -> (r: Result<Vec<(String, String)>, String>)
    ensures
        match parse_lines(source@, text_lines(text@), text_lines(text@).len() as int) {
            Ok(entries) => r matches Ok(v) && pair_views(v@) == entries,
            Err(e) => r matches Err(m) && m@ == e,
        },
{
    let lines = split_lines(text);
    let ghost ls = text_lines(text@);
    let mut entries: Vec<(String, String)> = Vec::new();
    proof {
        assert(pair_views(entries@) =~= Seq::<(Seq<char>, Seq<char>)>::empty());
    }
    let mut i: usize = 0;
    while i < lines.len()
        invariant
            lines@.map_values(|s: String| s@) == ls,
            ls == text_lines(text@),
            0 <= i <= lines@.len(),
            parse_lines(source@, ls, i as int) == Ok::<Seq<(Seq<char>, Seq<char>)>, Seq<char>>(
                pair_views(entries@),
            ),
        decreases lines@.len() - i,
    {
        proof {
            assert(ls[i as int] == lines@[i as int]@);
        }
        let number = i + 1;
        match parse_line(lines[i].as_str()) {
            LineOutcome::Skip => {},
            LineOutcome::Entry(k, v) => {
                proof {
                    assert(pair_views(entries@.push((k, v))) =~= pair_views(entries@).push((k@, v@)));
                }
                entries.push((k, v));
            },
            LineOutcome::NoEquals => {
                proof {
                    lemma_parse_error_stays(source@, ls, i + 1, ls.len() as int);
                }
                return Err(located_error(source, number, " must use KEY=value"));
            },
            LineOutcome::BadKey => {
                proof {
                    lemma_parse_error_stays(source@, ls, i + 1, ls.len() as int);
                }
                return Err(located_error(source, number, " has an invalid key"));
            },
            LineOutcome::BadQuote => {
                proof {
                    lemma_parse_error_stays(source@, ls, i + 1, ls.len() as int);
                }
                return Err(located_error(source, number, " has an invalid quoted value"));
            },
        }
        i = i + 1;
    }
    Ok(entries)
}

proof fn lemma_parse_error_stays(source: Seq<char>, lines: Seq<Seq<char>>, m: int, n: int)
    requires
        0 <= m <= n,
        parse_lines(source, lines, m) is Err,
    ensures
        parse_lines(source, lines, n) == parse_lines(source, lines, m),
    decreases n - m,
{
    if m < n {
        lemma_parse_error_stays(source, lines, m, n - 1);
    }
}

/// The first line of a written `.env` file.
pub open spec fn dotenv_header() -> Seq<char> {
    "# Local Muxiva provider credentials. Never commit this file.\n"@
}

/// The `KEY="value"` lines of the first `n` entries.
pub open spec fn dotenv_lines(entries: Seq<(Seq<char>, Seq<char>)>, n: int) -> Seq<char>
    decreases n,
{
    if n <= 0 {
        Seq::empty()
    } else {
        dotenv_lines(entries, n - 1) + entries[n - 1].0 + "="@ + json_string_text(entries[n - 1].1) + "\n"@
    }
}


proof fn lemma_find_char_first(s: Seq<char>, c: char, i: int)
    requires
        0 <= i,
    ensures
        find_char(s, c, i) matches Some(k) ==> forall|j: int| i <= j < k ==> s[j] != c,
    decreases s.len() - i,
{
    if i < s.len() && s[i] != c {
        lemma_find_char_first(s, c, i + 1);
    }
}

proof fn lemma_find_char_at(s: Seq<char>, c: char, i: int, m: int)
    requires
        0 <= i <= m < s.len(),
        s[m] == c,
        forall|j: int| i <= j < m ==> s[j] != c,
    ensures
        find_char(s, c, i) == Some(m),
    decreases m - i,
{
    if i < m {
        lemma_find_char_at(s, c, i + 1, m);
    }
}

proof fn lemma_find_char_some(s: Seq<char>, c: char, i: int, m: int)
    requires
        0 <= i <= m < s.len(),
        s[m] == c,
    ensures
        find_char(s, c, i) is Some,
    decreases m - i,
{
    if i < m && s[i] != c {
        lemma_find_char_some(s, c, i + 1, m);
    }
}

proof fn lemma_lines_concat(x: Seq<char>, y: Seq<char>)
    requires
        x.len() == 0 || x.last() == '\n',
    ensures
        text_lines(x + y) == text_lines(x) + text_lines(y),
    decreases x.len(),
{
    if x.len() == 0 {
        assert(x + y =~= y);
        assert(text_lines(x) + text_lines(y) =~= text_lines(y));
    } else {
        let xy = x + y;
        lemma_find_char_some(x, '\n', 0, x.len() - 1);
        lemma_find_char_bounds(x, '\n', 0);
        lemma_find_char_first(x, '\n', 0);
        let i = find_char(x, '\n', 0)->0;
        assert forall|j: int| 0 <= j < i implies xy[j] != '\n' by {
            assert(xy[j] == x[j]);
        }
        lemma_find_char_at(xy, '\n', 0, i);
        assert(xy.take(i) =~= x.take(i));
        let rest = x.skip(i + 1);
        assert(xy.skip(i + 1) =~= rest + y);
        if rest.len() > 0 {
            assert(rest.last() == x.last());
        }
        lemma_lines_concat(rest, y);
        let line = if x.take(i).len() > 0 && x.take(i).last() == '\r' {
            x.take(i).drop_last()
        } else {
            x.take(i)
        };
        assert(text_lines(x) == seq![line] + text_lines(rest));
        assert(text_lines(xy) == seq![line] + text_lines(rest + y));
        assert(text_lines(xy) =~= text_lines(x) + text_lines(y));
    }
}

proof fn lemma_single_line(a: Seq<char>)
    requires
        a.len() > 0,
        a.last() != '\r',
        forall|j: int| 0 <= j < a.len() ==> a[j] != '\n',
    ensures
        text_lines(a + seq!['\n']) == seq![a],
{
    let s = a + seq!['\n'];
    lemma_find_char_at(s, '\n', 0, a.len() as int);
    assert(s.take(a.len() as int) =~= a);
    assert(s.skip((a.len() + 1) as int) =~= Seq::<char>::empty());
    assert(text_lines(s.skip((a.len() + 1) as int)) == Seq::<Seq<char>>::empty());
    assert(s.len() > 0);
    assert(s.take(a.len() as int).last() != '\r');
    assert(text_lines(s) == seq![s.take(a.len() as int)] + text_lines(s.skip((a.len() + 1) as int)));
    assert(seq![a] + Seq::<Seq<char>>::empty() =~= seq![a]);
}

proof fn lemma_escape_no_line_feed(v: Seq<char>)
    ensures
        forall|j: int| 0 <= j < json_escaped(v).len() ==> json_escaped(v)[j] != '\n',
    decreases v.len(),
{
    if v.len() > 0 {
        lemma_escape_no_line_feed(v.drop_first());
        let e = json_escape(v[0]);
        let rest = json_escaped(v.drop_first());
        assert forall|j: int| 0 <= j < e.len() implies e[j] != '\n' by {
            let c = v[0];
            if (c as u32) < 0x20 && c != '\u{8}' && c != '\u{c}' && c != '\n' && c != '\r' && c != '\t' && c != '"' && c
                != '\\' {
                assert((c as u32 / 16) < 16 && (c as u32 % 16) < 16);
            }
        }
        assert forall|j: int| 0 <= j < json_escaped(v).len() implies json_escaped(v)[j] != '\n' by {
            if j >= e.len() {
                assert(json_escaped(v)[j] == rest[j - e.len()]);
            } else {
                assert(json_escaped(v)[j] == e[j]);
            }
        }
    }
}

proof fn lemma_trimmed_itself(s: Seq<char>)
    requires
        s.len() > 0,
        !is_unicode_whitespace(s[0]),
        !is_unicode_whitespace(s.last()),
    ensures
        trimmed(s) == s,
{
    assert(trim_start_index(s, 0) == 0);
    assert(trim_end_index(s, s.len() as int) == s.len());
    assert(s.subrange(0, s.len() as int) =~= s);
}

/// A key that `.env` files accept: uppercase letters, digits and `_`.
pub open spec fn valid_key_text(k: Seq<char>) -> bool {
    k.len() > 0 && forall|j: int| 0 <= j < k.len() ==> key_char(#[trigger] k[j])
}

/// The line `dotenv_text` writes for one entry, without its line feed.
pub open spec fn entry_line(e: (Seq<char>, Seq<char>)) -> Seq<char> {
    e.0 + "="@ + json_string_text(e.1)
}

proof fn lemma_entry_line(e: (Seq<char>, Seq<char>))
    requires
        valid_key_text(e.0),
        json_string_parsed(json_string_text(e.1)) == Some(e.1),
    ensures
        line_content(entry_line(e)) == LineContent::Entry(e.0, e.1),
        entry_line(e).len() > 0,
        entry_line(e).last() == '"',
        forall|j: int| 0 <= j < entry_line(e).len() ==> entry_line(e)[j] != '\n',
{
    reveal_strlit("=");
    let k = e.0;
    let q = json_string_text(e.1);
    let line = entry_line(e);
    lemma_escape_no_line_feed(e.1);
    assert(q[0] == '"');
    assert(q.last() == '"');
    assert(line.len() == k.len() + 1 + q.len());
    assert(line[0] == k[0]);
    assert(line.last() == q.last());
    assert(key_char(k[0]));
    lemma_trimmed_itself(line);
    assert forall|j: int| 0 <= j < line.len() implies line[j] != '\n' by {
        if j < k.len() {
            assert(line[j] == k[j]);
            assert(key_char(k[j]));
        } else if j > k.len() {
            assert(line[j] == q[j - k.len() - 1]);
            if 0 < j - k.len() - 1 < q.len() - 1 {
                assert(q[j - k.len() - 1] == json_escaped(e.1)[j - k.len() - 2]);
            }
        }
    }
    assert forall|j: int| 0 <= j < k.len() implies line[j] != '=' by {
        assert(line[j] == k[j]);
        assert(key_char(k[j]));
    }
    lemma_find_char_at(line, '=', 0, k.len() as int);
    assert(line.take(k.len() as int) =~= k);
    assert(line.skip((k.len() + 1) as int) =~= q);
    assert(key_char(k.last()));
    lemma_trimmed_itself(k);
    lemma_trimmed_itself(q);
    assert(line[0] != '#');
}

/// The header line without its line feed.
pub open spec fn header_line() -> Seq<char> {
    "# Local Muxiva provider credentials. Never commit this file."@
}

proof fn lemma_header()
    ensures
        dotenv_header() == header_line() + seq!['\n'],
        text_lines(dotenv_header()) == seq![header_line()],
        line_content(header_line()) == LineContent::Skip,
{
    reveal_strlit("# Local Muxiva provider credentials. Never commit this file.\n");
    reveal_strlit("# Local Muxiva provider credentials. Never commit this file.");
    assert(dotenv_header() =~= header_line() + seq!['\n']);
    lemma_single_line(header_line());
    lemma_trimmed_itself(header_line());
}

proof fn lemma_body_lines(es: Seq<(Seq<char>, Seq<char>)>, n: int)
    requires
        0 <= n <= es.len(),
        forall|j: int| 0 <= j < n ==> valid_key_text(#[trigger] es[j].0),
        forall|j: int| 0 <= j < n ==> json_string_parsed(json_string_text(#[trigger] es[j].1)) == Some(es[j].1),
    ensures
        text_lines(dotenv_lines(es, n)) == Seq::new(n as nat, |j: int| entry_line(es[j])),
        dotenv_lines(es, n).len() == 0 || dotenv_lines(es, n).last() == '\n',
    decreases n,
{
    if n == 0 {
        assert(text_lines(Seq::<char>::empty()) =~= Seq::new(0, |j: int| entry_line(es[j])));
    } else {
        lemma_body_lines(es, n - 1);
        reveal_strlit("=");
        reveal_strlit("\n");
        let e = es[n - 1];
        lemma_entry_line(e);
        let before = dotenv_lines(es, n - 1);
        assert(dotenv_lines(es, n) =~= before + (entry_line(e) + seq!['\n']));
        lemma_lines_concat(before, entry_line(e) + seq!['\n']);
        lemma_single_line(entry_line(e));
        assert(text_lines(dotenv_lines(es, n)) =~= Seq::new(n as nat, |j: int| entry_line(es[j])));
    }
}

proof fn lemma_parse_written(
    source: Seq<char>,
    es: Seq<(Seq<char>, Seq<char>)>,
    lines: Seq<Seq<char>>,
    n: int,
)
    requires
        0 <= n <= es.len(),
        lines.len() == es.len() + 1,
        line_content(lines[0]) == LineContent::Skip,
        forall|j: int| 0 <= j < es.len() ==> line_content(#[trigger] lines[j + 1]) == LineContent::Entry(es[j].0, es[j].1),
    ensures
        parse_lines(source, lines, n + 1) == Ok::<Seq<(Seq<char>, Seq<char>)>, Seq<char>>(es.take(n)),
    decreases n,
{
    if n == 0 {
        assert(es.take(0) =~= Seq::<(Seq<char>, Seq<char>)>::empty());
    } else {
        lemma_parse_written(source, es, lines, n - 1);
        assert(line_content(lines[n]) == LineContent::Entry(es[n - 1].0, es[n - 1].1));
        assert(es.take(n - 1).push((es[n - 1].0, es[n - 1].1)) =~= es.take(n));
    }
}

proof fn lemma_round_trip(source: Seq<char>, es: Seq<(Seq<char>, Seq<char>)>)
    requires
        forall|j: int| 0 <= j < es.len() ==> valid_key_text(#[trigger] es[j].0),
        forall|j: int| 0 <= j < es.len() ==> json_string_parsed(json_string_text(#[trigger] es[j].1)) == Some(es[j].1),
    ensures
        ({
            let lines = text_lines(dotenv_header() + dotenv_lines(es, es.len() as int));
            parse_lines(source, lines, lines.len() as int) == Ok::<Seq<(Seq<char>, Seq<char>)>, Seq<char>>(es)
        }),
{
    lemma_header();
    lemma_body_lines(es, es.len() as int);
    lemma_lines_concat(dotenv_header(), dotenv_lines(es, es.len() as int));
    let lines = text_lines(dotenv_header() + dotenv_lines(es, es.len() as int));
    assert(lines == seq![header_line()] + Seq::new(es.len(), |j: int| entry_line(es[j])));
    assert forall|j: int| 0 <= j < es.len() implies line_content(#[trigger] lines[j + 1]) == LineContent::Entry(
        es[j].0,
        es[j].1,
    ) by {
        assert(lines[j + 1] == entry_line(es[j]));
        lemma_entry_line(es[j]);
    }
    lemma_parse_written(source, es, lines, es.len() as int);
    assert(es.take(es.len() as int) =~= es);
}

/// The text of a `.env` file holding `entries`, one `KEY=` and JSON string
/// per line under a warning header. Every text can be written as JSON, so
/// this always succeeds; when every key is one `.env` files accept,
/// `parse_dotenv` reads the entries back, in order.
pub fn dotenv_text(entries: &[(String, String)]) -> (r: Result<String, String>)
    ensures
        r matches Ok(t) && t@ == dotenv_header() + dotenv_lines(pair_views(entries@), entries@.len() as int),
        (forall|j: int| 0 <= j < entries@.len() ==> valid_key_text(#[trigger] entries@[j].0@)) ==> (r matches Ok(t)
            && forall|source: Seq<char>|
            #![trigger parse_lines(source, text_lines(t@), text_lines(t@).len() as int)]
            parse_lines(source, text_lines(t@), text_lines(t@).len() as int) == Ok::<
                Seq<(Seq<char>, Seq<char>)>,
                Seq<char>,
            >(pair_views(entries@))),
{
    let mut out = "# Local Muxiva provider credentials. Never commit this file.\n".to_owned();
    let ghost es = pair_views(entries@);
    proof {
        assert(out@ =~= dotenv_header() + dotenv_lines(es, 0));
    }
    let mut i: usize = 0;
    while i < entries.len()
        invariant
            es == pair_views(entries@),
            0 <= i <= entries@.len(),
            out@ == dotenv_header() + dotenv_lines(es, i as int),
            forall|j: int| 0 <= j < i ==> json_string_parsed(json_string_text(#[trigger] es[j].1)) == Some(es[j].1),
        decreases entries@.len() - i,
    {
        let quoted = match json_quote(entries[i].1.as_str()) {
            Ok(q) => q,
            Err(e) => return Err(e),
        };
        out.append(entries[i].0.as_str());
        out.append("=");
        out.append(quoted.as_str());
        out.append("\n");
        proof {
            assert(es[i as int] == (entries@[i as int].0@, entries@[i as int].1@));
            assert(out@ =~= dotenv_header() + dotenv_lines(es, i + 1));
        }
        i = i + 1;
    }
    proof {
        if forall|j: int| 0 <= j < entries@.len() ==> valid_key_text(#[trigger] entries@[j].0@) {
            assert forall|j: int| 0 <= j < es.len() implies valid_key_text(#[trigger] es[j].0) by {
                assert(es[j].0 == entries@[j].0@);
            }
            assert forall|source: Seq<char>| #[trigger] parse_lines(source, text_lines(out@), text_lines(out@).len() as int)
                == Ok::<Seq<(Seq<char>, Seq<char>)>, Seq<char>>(es) by {
                lemma_round_trip(source, es);
            }
        }
    }
    Ok(out)
}

} // verus!
