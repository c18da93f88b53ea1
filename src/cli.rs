//! Reading options from command-line words.

use vstd::prelude::*;
use vstd::string::*;
use crate::config::{default_view, Config, ConfigView};
use crate::text::str_equal;

verus! {

/// The first index of `c` in `s`, or -1.
pub open spec fn index_of(s: Seq<char>, c: char) -> int
    decreases s.len(),
{
    if s.len() == 0 {
        -1
    } else if s[0] == c {
        0
    } else if index_of(s.skip(1), c) < 0 {
        -1
    } else {
        index_of(s.skip(1), c) + 1
    }
}

/// The pieces of `s` between commas.
#[verifier::opaque]
pub open spec fn split_commas(s: Seq<char>) -> Seq<Seq<char>>
    decreases s.len(),
{
    if index_of(s, ',') < 0 || index_of(s, ',') >= s.len() {
        seq![s]
    } else {
        seq![s.take(index_of(s, ','))] + split_commas(s.skip(index_of(s, ',') + 1))
    }
}

pub open spec fn is_digit(c: char) -> bool {
    '0' <= c && c <= '9'
}

/// The number that a run of decimal digits denotes.
pub open spec fn digits_value(s: Seq<char>) -> nat
    decreases s.len(),
{
    if s.len() == 0 {
        0
    } else {
        digits_value(s.drop_last()) * 10 + (s.last() as nat - '0' as nat) as nat
    }
}

/// What the `from_str` of an unsigned integer type with largest value `max`
/// accepts: an optional `+`, then at least one decimal digit, denoting a
/// number no larger than `max`.
pub open spec fn parsed_decimal(s: Seq<char>, max: u64) -> Option<u64> {
    if unsigned_digits(s).len() > 0 && all_digits(unsigned_digits(s)) && digits_value(unsigned_digits(s)) <= max {
        Some(digits_value(unsigned_digits(s)) as u64)
    } else {
        None
    }
}

/// What `u32::from_str` accepts.
pub open spec fn parsed_u32(s: Seq<char>) -> Option<u32> {
    match parsed_decimal(s, u32::MAX as u64) {
        Some(v) => Some(v as u32),
        None => None,
    }
}

/// What `usize::from_str` accepts.
pub open spec fn parsed_usize(s: Seq<char>) -> Option<usize> {
    match parsed_decimal(s, usize::MAX as u64) {
        Some(v) => Some(v as usize),
        None => None,
    }
}

/// `s` without its leading `+`, where it has one.
pub open spec fn unsigned_digits(s: Seq<char>) -> Seq<char> {
    if s.len() > 0 && s[0] == '+' { s.skip(1) } else { s }
}

pub open spec fn all_digits(d: Seq<char>) -> bool {
    forall|i: int| 0 <= i < d.len() ==> is_digit(#[trigger] d[i])
}

/// A character of the Unicode White_Space property, which `char::is_whitespace` tests.
pub open spec fn is_white_space(c: char) -> bool {
    ('\u{9}' <= c && c <= '\u{d}') || c == ' ' || c == '\u{85}' || c == '\u{a0}' || c == '\u{1680}'
        || ('\u{2000}' <= c && c <= '\u{200a}') || c == '\u{2028}' || c == '\u{2029}'
        || c == '\u{202f}' || c == '\u{205f}' || c == '\u{3000}'
}

/// `s` without its leading white space.
pub open spec fn trim_start(s: Seq<char>) -> Seq<char>
    decreases s.len(),
{
    if s.len() > 0 && is_white_space(s[0]) { trim_start(s.skip(1)) } else { s }
}

/// `s` without its trailing white space.
pub open spec fn trim_end(s: Seq<char>) -> Seq<char>
    decreases s.len(),
{
    if s.len() > 0 && is_white_space(s.last()) { trim_end(s.drop_last()) } else { s }
}

/// `s` without leading and trailing white space, as `str::trim` gives it.
pub open spec fn trimmed_of(s: Seq<char>) -> Seq<char> {
    trim_end(trim_start(s))
}

/// Whether `c` is white space.
pub fn white_space(c: char) -> (r: bool)
    ensures
        r == is_white_space(c),
{
    ('\u{9}' <= c && c <= '\u{d}') || c == ' ' || c == '\u{85}' || c == '\u{a0}' || c == '\u{1680}'
        || ('\u{2000}' <= c && c <= '\u{200a}') || c == '\u{2028}' || c == '\u{2029}'
        || c == '\u{202f}' || c == '\u{205f}' || c == '\u{3000}'
}

/// `s` without leading and trailing white space.
pub fn trim(s: &str) -> (r: &str)
    ensures
        r@ == trimmed_of(s@),
{
    let n = s.unicode_len();
    let mut i: usize = 0;
    proof {
        assert(s@.skip(0) =~= s@);
    }
    while i < n && white_space(s.get_char(i))
        invariant
            i <= n == s@.len(),
            trim_start(s@) == trim_start(s@.skip(i as int)),
        decreases n - i,
    {
        assert(s@.skip(i as int).skip(1) =~= s@.skip(i + 1));
        i = i + 1;
    }
    let ghost front = s@.skip(i as int);
    assert(trim_start(s@) == front);
    let mut j: usize = n;
    proof {
        assert(s@.subrange(i as int, n as int) =~= front);
    }
    while j > i && white_space(s.get_char(j - 1))
        invariant
            i <= j <= n == s@.len(),
            trim_end(front) == trim_end(s@.subrange(i as int, j as int)),
        decreases j - i,
    {
        assert(s@.subrange(i as int, j as int).drop_last() =~= s@.subrange(i as int, j - 1));
        j = j - 1;
    }
    s.substring_char(i, j)
}

/// The message given for a width that does not parse.
pub open spec fn invalid_width_message(piece: Seq<char>) -> Seq<char> {
    "Invalid target width '"@ + piece + "'"@
}

/// Every piece of `p` is a width once trimmed.
pub open spec fn widths_ok(p: Seq<Seq<char>>) -> bool {
    forall|i: int| 0 <= i < p.len() ==> (#[trigger] parsed_u32(trimmed_of(p[i]))) is Some
}

/// The widths that the trimmed pieces of `p` denote.
pub open spec fn widths_value(p: Seq<Seq<char>>) -> Seq<u32> {
    Seq::new(p.len(), |i: int| match parsed_u32(trimmed_of(p[i])) {
        Some(w) => w,
        None => 0,
    })
}

/// Piece `j` of `p` is the first that is not a width.
pub open spec fn is_first_bad(p: Seq<Seq<char>>, j: int) -> bool {
    &&& 0 <= j < p.len()
    &&& parsed_u32(trimmed_of(p[j])) is None
    &&& forall|i: int| 0 <= i < j ==> (#[trigger] parsed_u32(trimmed_of(p[i]))) is Some
}

/// The message for the first piece of `p` that is not a width.
pub open spec fn widths_error(p: Seq<Seq<char>>) -> Seq<char> {
    invalid_width_message(trimmed_of(p[choose|j: int| is_first_bad(p, j)]))
}

/// What `parse_target_widths` makes of `s`.
pub open spec fn widths_result(s: Seq<char>) -> Result<Seq<u32>, Seq<char>> {
    if widths_ok(split_commas(s)) {
        Ok(widths_value(split_commas(s)))
    } else {
        Err(widths_error(split_commas(s)))
    }
}

proof fn lemma_first_bad_unique(p: Seq<Seq<char>>, j: int)
    requires
        is_first_bad(p, j),
    ensures
        widths_error(p) == invalid_width_message(trimmed_of(p[j])),
        !widths_ok(p),
{
    let k = choose|k: int| is_first_bad(p, k);
    assert(is_first_bad(p, k));
    if k < j {
        assert(parsed_u32(trimmed_of(p[k])) is Some);
    }
    if j < k {
        assert(parsed_u32(trimmed_of(p[j])) is Some);
    }
}

/// `s` begins with two dashes.
pub open spec fn is_long_option(s: Seq<char>) -> bool {
    s.len() >= 2 && s[0] == '-' && s[1] == '-'
}

proof fn lemma_index_of(s: Seq<char>, c: char, k: int)
    requires
        0 <= k <= s.len(),
        forall|j: int| 0 <= j < k ==> s[j] != c,
    ensures
        k < s.len() && s[k] == c ==> index_of(s, c) == k,
        k == s.len() ==> index_of(s, c) == -1,
    decreases s.len(),
{
    if s.len() > 0 && k > 0 {
        lemma_index_of(s.skip(1), c, k - 1);
    }
}

proof fn lemma_index_of_bounds(s: Seq<char>, c: char)
    ensures
        -1 <= index_of(s, c) < s.len(),
        index_of(s, c) >= 0 ==> s[index_of(s, c)] == c,
    decreases s.len(),
{
    if s.len() > 0 && s[0] != c {
        lemma_index_of_bounds(s.skip(1), c);
    }
}

proof fn lemma_digits_monotone(s: Seq<char>, i: int)
    requires
        0 <= i <= s.len(),
        forall|j: int| 0 <= j < s.len() ==> is_digit(#[trigger] s[j]),
    ensures
        digits_value(s.take(i)) <= digits_value(s),
    decreases s.len() - i,
{
    if i < s.len() {
        lemma_digits_monotone(s, i + 1);
        assert(s.take(i + 1).drop_last() =~= s.take(i));
    } else {
        assert(s.take(i) =~= s);
    }
}

/// The number that `s` denotes, as `u32::from_str` reads it.
pub fn parse_u32(s: &str) -> (r: Option<u32>)
    ensures
        r == parsed_u32(s@),
{
    match parse_decimal(s, 0xffff_ffff) {
        Some(v) => Some(v as u32),
        None => None,
    }
}

/// The number that `s` denotes, as `usize::from_str` reads it.
pub fn parse_usize(s: &str) -> (r: Option<usize>)
    ensures
        r == parsed_usize(s@),
{
    match parse_decimal(s, usize::MAX as u64) {
        Some(v) => Some(v as usize),
        None => None,
    }
}

/// The number that `s` denotes where it is no larger than `max`.
pub fn parse_decimal(s: &str, max: u64) -> (r: Option<u64>)
    ensures
        r == parsed_decimal(s@, max),
{
    let n = s.unicode_len();
    let start: usize = if n > 0 && s.get_char(0) == '+' { 1 } else { 0 };
    let ghost d = unsigned_digits(s@);
    assert(d =~= s@.skip(start as int));
    if start == n {
        return None;
    }
    let mut value: u64 = 0;
    let mut i: usize = start;
    while i < n
        invariant
            start <= i <= n == s@.len(),
            d == unsigned_digits(s@),
            d == s@.skip(start as int),
            forall|j: int| 0 <= j < i - start ==> is_digit(#[trigger] d[j]),
            value == digits_value(d.take(i - start)),
            value <= max,
        decreases n - i,
    {
        let c = s.get_char(i);
        assert(d[i - start] == c);
        if !('0' <= c && c <= '9') {
            assert(!is_digit(d[i - start]));
            assert(!all_digits(d));
            assert(parsed_decimal(s@, max) is None);
            return None;
        }
        assert(d.take(i + 1 - start).drop_last() =~= d.take(i - start));
        assert(d.take(i + 1 - start).last() == c);
        let dg: u64 = c as u64 - '0' as u64;
        if dg > max || value > (max - dg) / 10 {
            proof {
                let next = value * 10 + dg;
                if dg <= max {
                    assert(next > max) by (nonlinear_arith)
                        requires value > (max - dg) / 10, next == value * 10 + dg, dg <= max;
                }
                assert(digits_value(d.take(i + 1 - start)) == next);
                if all_digits(d) {
                    lemma_digits_monotone(d, i + 1 - start);
                    assert(digits_value(d) > max);
                }
                assert(parsed_decimal(s@, max) is None);
            }
            return None;
        }
        proof {
            assert(value * 10 + dg <= max) by (nonlinear_arith)
                requires value <= (max - dg) / 10, dg <= max;
        }
        let next: u64 = value * 10 + dg;
        assert(digits_value(d.take(i + 1 - start)) == next);
        value = next;
        i = i + 1;
    }
    assert(d.take(n - start) =~= d);
    Some(value)
}

/// A target width read from an already trimmed piece.
pub fn parse_width(trimmed: &str) -> (r: Result<u32, String>)
    ensures
        r matches Ok(w) ==> parsed_u32(trimmed@) == Some(w),
        r matches Err(m) ==> parsed_u32(trimmed@) is None && m@ == invalid_width_message(trimmed@),
        r is Ok <==> parsed_u32(trimmed@) is Some,
{
    match parse_u32(trimmed) {
        Some(w) => Ok(w),
        None => {
            let mut m = String::from_str("Invalid target width '");
            m.append(trimmed);
            m.append("'");
            Err(m)
        },
    }
}

#[verifier::rlimit(40)]
/// Reads a comma-separated list of widths, each piece trimmed. The first piece
/// that is not a width gives the error.
pub fn parse_target_widths(widths_str: &str) -> (r: Result<Vec<u32>, String>)
    ensures
        r is Ok <==> forall|i: int| 0 <= i < split_commas(widths_str@).len()
            ==> (#[trigger] parsed_u32(trimmed_of(split_commas(widths_str@)[i]))) is Some,
        r matches Ok(v) ==> v@.len() == split_commas(widths_str@).len()
            && forall|i: int| 0 <= i < v@.len()
                ==> Some(#[trigger] v@[i]) == parsed_u32(trimmed_of(split_commas(widths_str@)[i])),
        r matches Err(m) ==> exists|j: int| 0 <= j < split_commas(widths_str@).len()
            && parsed_u32(trimmed_of(split_commas(widths_str@)[j])) is None
            && (forall|i: int| 0 <= i < j ==> (#[trigger] parsed_u32(trimmed_of(split_commas(widths_str@)[i]))) is Some)
            && m@ == invalid_width_message(trimmed_of(split_commas(widths_str@)[j])),
        r matches Ok(v) ==> widths_result(widths_str@) == Ok::<Seq<u32>, Seq<char>>(v@),
        r matches Err(m) ==> widths_result(widths_str@) == Err::<Seq<u32>, Seq<char>>(m@),
{
    let ghost pieces = split_commas(widths_str@);
    let ghost mut done: Seq<Seq<char>> = Seq::empty();
    let n = widths_str.unicode_len();
    let mut out: Vec<u32> = Vec::new();
    let mut start: usize = 0;
    let mut i: usize = 0;
    proof {
        assert(widths_str@.skip(0) =~= widths_str@);
        assert(done + split_commas(widths_str@.skip(0)) =~= pieces);
    }
    while i < n
        invariant
            start <= i <= n == widths_str@.len(),
            pieces == split_commas(widths_str@),
            pieces == done + split_commas(widths_str@.skip(start as int)),
            out@.len() == done.len(),
            forall|j: int| start <= j < i ==> widths_str@[j] != ',',
            forall|k: int| 0 <= k < done.len() ==> Some(#[trigger] out@[k]) == parsed_u32(trimmed_of(done[k])),
        decreases n - i,
    {
        if widths_str.get_char(i) == ',' {
            proof {
                lemma_split_step(widths_str@, start as int, i as int);
            }
            let piece = widths_str.substring_char(start, i);
            let t = trim(piece);
            proof {
                assert(pieces =~= (done + seq![piece@]) + split_commas(widths_str@.skip(i + 1)));
                assert(pieces[done.len() as int] == piece@);
                assert forall|k: int| 0 <= k < done.len() implies pieces[k] == done[k] by {}
            }
            match parse_width(t) {
                Ok(w) => {
                    let ghost prev = out@;
                    out.push(w);
                    proof {
                        done = done + seq![piece@];
                        assert forall|k: int| 0 <= k < done.len() implies
                            Some(#[trigger] out@[k]) == parsed_u32(trimmed_of(done[k])) by {
                            if k < prev.len() {
                                assert(out@[k] == prev[k]);
                            }
                        }
                    }
                },
                Err(m) => {
                    proof {
                        assert forall|k: int| 0 <= k < done.len() implies
                            (#[trigger] parsed_u32(trimmed_of(pieces[k]))) is Some by {
                            assert(Some(out@[k]) == parsed_u32(trimmed_of(done[k])));
                        }
                        lemma_first_bad_unique(pieces, done.len() as int);
                    }
                    return Err(m);
                },
            }
            start = i + 1;
        }
        i = i + 1;
    }
    proof {
        lemma_split_step(widths_str@, start as int, n as int);
    }
    let piece = widths_str.substring_char(start, n);
    let t = trim(piece);
    proof {
        assert(pieces =~= done + seq![piece@]);
        assert(pieces[done.len() as int] == piece@);
        assert forall|k: int| 0 <= k < done.len() implies
            (#[trigger] parsed_u32(trimmed_of(pieces[k]))) is Some by {
            assert(pieces[k] == done[k]);
            assert(Some(out@[k]) == parsed_u32(trimmed_of(done[k])));
        }
    }
    match parse_width(t) {
        Ok(w) => {
            let ghost prev = out@;
            out.push(w);
            proof {
                assert forall|k: int| 0 <= k < out@.len() implies
                    Some(#[trigger] out@[k]) == parsed_u32(trimmed_of(pieces[k])) by {
                    if k < prev.len() {
                        assert(out@[k] == prev[k]);
                        assert(pieces[k] == done[k]);
                    }
                }
                assert(out@ =~= widths_value(pieces));
            }
            Ok(out)
        },
        Err(m) => {
            proof {
                lemma_first_bad_unique(pieces, done.len() as int);
            }
            Err(m)
        },
    }
}

/// Splits `--key=value` into its key and value; `--key` has no value. Words
/// that do not begin with two dashes are not long options.
pub fn parse_long_option(arg: &str) -> (r: Option<(String, Option<String>)>)
    ensures
        r is Some <==> is_long_option(arg@),
        r matches Some((key, value)) ==> {
            let body = arg@.skip(2);
            let k = index_of(body, '=');
            &&& k < 0 ==> key@ == body && value is None
            &&& k >= 0 ==> (key@ == body.take(k) && (value matches Some(v) && v@ == body.skip(k + 1)))
        },
{
    let n = arg.unicode_len();
    if n < 2 || arg.get_char(0) != '-' || arg.get_char(1) != '-' {
        return None;
    }
    let body = arg.substring_char(2, n);
    assert(body@ =~= arg@.skip(2));
    let m = body.unicode_len();
    let mut i: usize = 0;
    while i < m
        invariant
            i <= m == body@.len(),
            body@ == arg@.skip(2),
            is_long_option(arg@),
            forall|j: int| 0 <= j < i ==> body@[j] != '=',
        decreases m - i,
    {
        if body.get_char(i) == '=' {
            proof {
                lemma_index_of(body@, '=', i as int);
            }
            let key = String::from_str(body.substring_char(0, i));
            let value = String::from_str(body.substring_char(i + 1, m));
            return Some((key, Some(value)));
        }
        i = i + 1;
    }
    proof {
        lemma_index_of(body@, '=', m as int);
        assert(body@.subrange(0, m as int) =~= body@);
    }
    Some((String::from_str(body.substring_char(0, m)), None))
}

/// One comma-free piece of `s` from `start` up to `i`, where `i` ends it.
proof fn lemma_split_step(s: Seq<char>, start: int, i: int)
    requires
        0 <= start <= i <= s.len(),
        forall|j: int| start <= j < i ==> s[j] != ',',
        i == s.len() || s[i] == ',',
    ensures
        i < s.len() ==> split_commas(s.skip(start)) == seq![s.subrange(start, i)] + split_commas(s.skip(i + 1)),
        i == s.len() ==> split_commas(s.skip(start)) == seq![s.subrange(start, i)],
{
    let rest = s.skip(start);
    reveal(split_commas);
    lemma_index_of(rest, ',', i - start);
    assert(rest.take(i - start) =~= s.subrange(start, i));
    if i < s.len() {
        assert(rest.skip(i - start + 1) =~= s.skip(i + 1));
    } else {
        assert(rest =~= s.subrange(start, i));
    }
}

/// A key that a long option may name.
pub open spec fn is_long_key(k: Seq<char>) -> bool {
    k == "pathout"@ || k == "maxdepth"@ || k == "target-widths"@ || k == "threads"@ || k == "useconfig"@
}

/// What long option `key` with value `value` does to a configuration.
pub open spec fn long_setting_result(c: ConfigView, key: Seq<char>, value: Seq<char>) -> Result<ConfigView, Seq<char>> {
    if key == "pathout"@ {
        Ok(ConfigView { path_out: value, ..c })
    } else if key == "maxdepth"@ {
        match parsed_usize(value) {
            Some(n) => Ok(ConfigView { max_depth: n, ..c }),
            None => Err("Invalid value for --maxdepth"@),
        }
    } else if key == "target-widths"@ {
        match widths_result(value) {
            Ok(v) => Ok(ConfigView { target_sizes: v, ..c }),
            Err(m) => Err(m),
        }
    } else if key == "threads"@ {
        match parsed_usize(value) {
            Some(n) => Ok(ConfigView { threads: n, ..c }),
            None => Err("Invalid value for --threads"@),
        }
    } else {
        Ok(ConfigView { config_file: Some(value), ..c })
    }
}

/// The message for a long option `--key` that is last among the words.
pub open spec fn missing_long_value(key: Seq<char>) -> Seq<char> {
    "Missing value for '--"@ + key + "'"@
}

/// What a long-option word does to a configuration by itself: `--key=value`
/// sets the key; a `--key` with no `=` has no value within the word.
pub open spec fn long_option_result(c: ConfigView, arg: Seq<char>) -> Result<ConfigView, Seq<char>> {
    let body = arg.skip(2);
    let k = index_of(body, '=');
    if k < 0 {
        Err(missing_long_value(body))
    } else if !is_long_key(body.take(k)) {
        Err("Unknown option '"@ + arg + "'"@)
    } else {
        long_setting_result(c, body.take(k), body.skip(k + 1))
    }
}

/// A letter that names a short option taking a value.
pub open spec fn is_short_flag(f: char) -> bool {
    f == 'o' || f == 'd' || f == 't' || f == 'n' || f == 'c'
}

/// What short option `f` with value `v` does to a configuration.
pub open spec fn short_option_result(c: ConfigView, f: char, v: Seq<char>) -> Result<ConfigView, Seq<char>> {
    if f == 'o' {
        Ok(ConfigView { path_out: v, ..c })
    } else if f == 'd' {
        match parsed_usize(v) {
            Some(n) => Ok(ConfigView { max_depth: n, ..c }),
            None => Err("Invalid value for -d"@),
        }
    } else if f == 't' {
        match widths_result(v) {
            Ok(w) => Ok(ConfigView { target_sizes: w, ..c }),
            Err(m) => Err(m),
        }
    } else if f == 'n' {
        match parsed_usize(v) {
            Some(n) => Ok(ConfigView { threads: n, ..c }),
            None => Err("Invalid value for -n"@),
        }
    } else {
        Ok(ConfigView { config_file: Some(v), ..c })
    }
}

/// What the letters of the short-option word `a` from its `j`th on do, each
/// taking the word after the last one taken (`args[i]` is the last taken).
/// Gives the configuration and the index of the last word taken.
pub open spec fn short_options_result(args: Seq<Seq<char>>, a: Seq<char>, j: int, i: int, c: ConfigView)
    -> Result<(ConfigView, int), Seq<char>>
    decreases a.len() - j,
{
    if j >= a.len() {
        Ok((c, i))
    } else if !is_short_flag(a[j]) {
        Err("Unknown option '-"@ + seq![a[j]] + "'"@)
    } else if i + 1 >= args.len() {
        Err("Missing value for -"@ + seq![a[j]])
    } else {
        match short_option_result(c, a[j], args[i + 1]) {
            Ok(c2) => short_options_result(args, a, j + 1, i + 1, c2),
            Err(m) => Err(m),
        }
    }
}

/// What the words of `args` from the `i`th on do to `c`: long options (with
/// `=value`, or taking the next word as the value), runs of short options, and
/// one positional input path.
pub open spec fn words_result(args: Seq<Seq<char>>, i: int, c: ConfigView) -> Result<ConfigView, Seq<char>>
    decreases args.len() - i,
{
    if i >= args.len() {
        if c.path_in.len() == 0 && c.config_file is None {
            Err("Input path is required."@)
        } else {
            Ok(c)
        }
    } else if is_long_option(args[i]) {
        let key = args[i].skip(2);
        if index_of(key, '=') >= 0 {
            match long_option_result(c, args[i]) {
                Ok(c2) => words_result(args, i + 1, c2),
                Err(m) => Err(m),
            }
        } else if i + 1 >= args.len() {
            Err(missing_long_value(key))
        } else if !is_long_key(key) {
            Err("Unknown option '--"@ + key + "'"@)
        } else {
            match long_setting_result(c, key, args[i + 1]) {
                Ok(c2) => words_result(args, i + 2, c2),
                Err(m) => Err(m),
            }
        }
    } else if args[i].len() > 0 && args[i][0] == '-' {
        match short_options_result(args, args[i], 1, i, c) {
            Ok((c2, i2)) => if i <= i2 < args.len() { words_result(args, i2 + 1, c2) } else { Err(Seq::empty()) },
            Err(m) => Err(m),
        }
    } else if c.path_in.len() == 0 {
        words_result(args, i + 1, ConfigView { path_in: args[i], ..c })
    } else {
        Err("Unexpected positional argument '"@ + args[i] + "'"@)
    }
}

proof fn lemma_short_options_advance(args: Seq<Seq<char>>, a: Seq<char>, j: int, i: int, c: ConfigView)
    requires
        i < args.len(),
    ensures
        short_options_result(args, a, j, i, c) matches Ok((c2, i2)) ==> i <= i2 < args.len(),
    decreases a.len() - j,
{
    if j < a.len() && is_short_flag(a[j]) && i + 1 < args.len() {
        if let Ok(c2) = short_option_result(c, a[j], args[i + 1]) {
            lemma_short_options_advance(args, a, j + 1, i + 1, c2);
        }
    }
}

fn set_depth(config: &mut Config, v: &str, msg: &str) -> (r: Result<(), String>)
    ensures
        match parsed_usize(v@) {
            Some(n) => r is Ok && final(config)@ == (ConfigView { max_depth: n, ..old(config)@ }),
            None => r matches Err(m) && m@ == msg@,
        },
{
    match parse_usize(v) {
        Some(n) => {
            config.max_depth = n;
            Ok(())
        },
        None => Err(String::from_str(msg)),
    }
}

fn set_threads(config: &mut Config, v: &str, msg: &str) -> (r: Result<(), String>)
    ensures
        match parsed_usize(v@) {
            Some(n) => r is Ok && final(config)@ == (ConfigView { threads: n, ..old(config)@ }),
            None => r matches Err(m) && m@ == msg@,
        },
{
    match parse_usize(v) {
        Some(n) => {
            config.threads = n;
            Ok(())
        },
        None => Err(String::from_str(msg)),
    }
}

fn set_widths(config: &mut Config, v: &str) -> (r: Result<(), String>)
    ensures
        match widths_result(v@) {
            Ok(w) => r is Ok && final(config)@ == (ConfigView { target_sizes: w, ..old(config)@ }),
            Err(e) => r matches Err(m) && m@ == e,
        },
{
    match parse_target_widths(v) {
        Ok(w) => {
            config.target_sizes = w;
            Ok(())
        },
        Err(m) => Err(m),
    }
}

/// Whether `k` is a key that a long option may name.
pub fn long_key(k: &str) -> (r: bool)
    ensures
        r == is_long_key(k@),
{
    str_equal(k, "pathout") || str_equal(k, "maxdepth") || str_equal(k, "target-widths")
        || str_equal(k, "threads") || str_equal(k, "useconfig")
}

/// Sets long option `key` to `value` in `config`.
pub fn apply_long_setting(config: &mut Config, key: &str, value: &str) -> (r: Result<(), String>)
    requires
        is_long_key(key@),
    ensures
        match long_setting_result(old(config)@, key@, value@) {
            Ok(c2) => r is Ok && final(config)@ == c2,
            Err(e) => r matches Err(m) && m@ == e,
        },
{
    if str_equal(key, "pathout") {
        config.path_out = String::from_str(value);
        Ok(())
    } else if str_equal(key, "maxdepth") {
        set_depth(config, value, "Invalid value for --maxdepth")
    } else if str_equal(key, "target-widths") {
        set_widths(config, value)
    } else if str_equal(key, "threads") {
        set_threads(config, value, "Invalid value for --threads")
    } else {
        config.config_file = Some(String::from_str(value));
        Ok(())
    }
}

fn missing_long_message(key: &str) -> (r: String)
    ensures
        r@ == missing_long_value(key@),
{
    let mut m = String::from_str("Missing value for '--");
    m.append(key);
    m.append("'");
    m
}

/// Applies one long-option word by itself to `config`.
pub fn apply_long_option(config: &mut Config, arg: &str) -> (r: Result<(), String>)
    requires
        is_long_option(arg@),
    ensures
        match long_option_result(old(config)@, arg@) {
            Ok(c2) => r is Ok && final(config)@ == c2,
            Err(e) => r matches Err(m) && m@ == e,
        },
{
    let (key, value) = match parse_long_option(arg) {
        Some(kv) => kv,
        None => { return Err(String::new()); },
    };
    match value {
        None => Err(missing_long_message(key.as_str())),
        Some(v) => {
            if long_key(key.as_str()) {
                apply_long_setting(config, key.as_str(), v.as_str())
            } else {
                let mut m = String::from_str("Unknown option '");
                m.append(arg);
                m.append("'");
                Err(m)
            }
        },
    }
}

/// Applies short option `f` with value `v` to `config`.
pub fn apply_short_option(config: &mut Config, f: char, v: &str) -> (r: Result<(), String>)
    requires
        is_short_flag(f),
    ensures
        match short_option_result(old(config)@, f, v@) {
            Ok(c2) => r is Ok && final(config)@ == c2,
            Err(e) => r matches Err(m) && m@ == e,
        },
{
    if f == 'o' {
        config.path_out = String::from_str(v);
        Ok(())
    } else if f == 'd' {
        set_depth(config, v, "Invalid value for -d")
    } else if f == 't' {
        set_widths(config, v)
    } else if f == 'n' {
        set_threads(config, v, "Invalid value for -n")
    } else {
        config.config_file = Some(String::from_str(v));
        Ok(())
    }
}

/// The words of `args` as character sequences.
pub open spec fn args_view(args: Seq<String>) -> Seq<Seq<char>> {
    Seq::new(args.len(), |i: int| args[i]@)
}

/// Builds a configuration from the program's words (`args[0]` is the
/// program's name): `--key=value` long options, runs of one-letter options
/// each taking the next word as its value, and one input path. An input path
/// or a configuration file is required.
pub fn parse_arguments(args: &Vec<String>) -> (r: Result<Config, String>)
    ensures
        match words_result(args_view(args@), 1, default_view()) {
            Ok(c) => r matches Ok(cfg) && cfg@ == c,
            Err(e) => r matches Err(m) && m@ == e,
        },
{
    let ghost words = args_view(args@);
    let mut config = Config::default();
    let mut i: usize = 1;
    while i < args.len()
        invariant
            1 <= i,
            words == args_view(args@),
            words_result(words, 1, default_view()) == words_result(words, i as int, config@),
        decreases args@.len() - i,
    {
        let arg = args[i].as_str();
        assert(arg@ == words[i as int]);
        let n = arg.unicode_len();
        if n >= 2 && arg.get_char(0) == '-' && arg.get_char(1) == '-' {
            let (key, value) = match parse_long_option(arg) {
                Some(kv) => kv,
                None => { return Err(String::new()); },
            };
            match value {
                Some(_) => {
                    match apply_long_option(&mut config, arg) {
                        Ok(()) => {},
                        Err(m) => { return Err(m); },
                    }
                },
                None => {
                    if i >= args.len() - 1 {
                        return Err(missing_long_message(key.as_str()));
                    }
                    if !long_key(key.as_str()) {
                        let mut m = String::from_str("Unknown option '--");
                        m.append(key.as_str());
                        m.append("'");
                        return Err(m);
                    }
                    assert(args[i + 1]@ == words[i + 1]);
                    match apply_long_setting(&mut config, key.as_str(), args[i + 1].as_str()) {
                        Ok(()) => {},
                        Err(m) => { return Err(m); },
                    }
                    i = i + 1;
                },
            }
        } else if n >= 1 && arg.get_char(0) == '-' {
            let ghost c0 = config@;
            let ghost i0 = i as int;
            proof {
                lemma_short_options_advance(words, arg@, 1, i0, c0);
            }
            let mut j: usize = 1;
            while j < n
                invariant
                    1 <= j <= n == arg@.len(),
                    i0 <= i < args@.len(),
                    i0 >= 1,
                    !is_long_option(words[i0]),
                    words[i0].len() > 0 && words[i0][0] == '-',
                    words_result(words, 1, default_view()) == words_result(words, i0, c0),
                    arg@ == words[i0],
                    words == args_view(args@),
                    short_options_result(words, arg@, 1, i0, c0)
                        == short_options_result(words, arg@, j as int, i as int, config@),
                decreases n - j,
            {
                let f = arg.get_char(j);
                if !(f == 'o' || f == 'd' || f == 't' || f == 'n' || f == 'c') {
                    let mut m = String::from_str("Unknown option '-");
                    let fs = arg.substring_char(j, j + 1);
                    assert(fs@ =~= seq![f]);
                    m.append(fs);
                    m.append("'");
                    return Err(m);
                }
                if i >= args.len() - 1 {
                    let mut m = String::from_str("Missing value for -");
                    let fs = arg.substring_char(j, j + 1);
                    assert(fs@ =~= seq![f]);
                    m.append(fs);
                    return Err(m);
                }
                assert(args[i + 1]@ == words[i + 1]);
                match apply_short_option(&mut config, f, args[i + 1].as_str()) {
                    Ok(()) => {},
                    Err(m) => { return Err(m); },
                }
                i = i + 1;
                j = j + 1;
            }
            proof {
                lemma_short_options_advance(words, arg@, 1, i0, c0);
            }
        } else if config.path_in.unicode_len() == 0 {
            config.path_in = String::from_str(arg);
        } else {
            let mut m = String::from_str("Unexpected positional argument '");
            m.append(arg);
            m.append("'");
            return Err(m);
        }
        i = i + 1;
    }
    if config.path_in.unicode_len() == 0 && config.config_file.is_none() {
        return Err(String::from_str("Input path is required."));
    }
    Ok(config)
}

} // verus!
