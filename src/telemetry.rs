use vstd::prelude::*;

verus! {

/// The first index at or after `i` where `pat` occurs in `s`.
pub open spec fn find_from(s: Seq<char>, pat: Seq<char>, i: int) -> Option<int>
    decreases s.len() + 1 - i,
{
    if i < 0 || i + pat.len() > s.len() {
        None
    } else if s.subrange(i, i + pat.len()) == pat {
        Some(i)
    } else {
        find_from(s, pat, i + 1)
    }
}

/// Characters with Unicode's `White_Space` property.
pub open spec fn is_white_space(c: char) -> bool {
    let v = c as u32;
    (9 <= v <= 13) || v == 32 || v == 0x85 || v == 0xa0 || v == 0x1680 || (0x2000 <= v <= 0x200a)
        || v == 0x2028 || v == 0x2029 || v == 0x202f || v == 0x205f || v == 0x3000
}

pub open spec fn trim_start(s: Seq<char>) -> Seq<char>
    decreases s.len(),
{
    if s.len() > 0 && is_white_space(s[0]) {
        trim_start(s.drop_first())
    } else {
        s
    }
}

pub open spec fn trim_end(s: Seq<char>) -> Seq<char>
    decreases s.len(),
{
    if s.len() > 0 && is_white_space(s.last()) {
        trim_end(s.drop_last())
    } else {
        s
    }
}

/// `s` without leading and trailing white space.
pub open spec fn trim(s: Seq<char>) -> Seq<char> {
    trim_end(trim_start(s))
}

pub open spec fn is_digit(c: char) -> bool {
    48 <= c as u32 <= 57
}

pub open spec fn all_digits(s: Seq<char>) -> bool {
    forall|i: int| 0 <= i < s.len() ==> is_digit(#[trigger] s[i])
}

/// The number that a string of decimal digits denotes.
pub open spec fn digits_value(s: Seq<char>) -> int
    decreases s.len(),
{
    if s.len() == 0 {
        0
    } else {
        digits_value(s.drop_last()) * 10 + (s.last() as u32 - 48)
    }
}

/// A non-empty run of decimal digits whose value is at most `max`.
pub open spec fn decimal_up_to(s: Seq<char>, max: int) -> bool {
    s.len() > 0 && all_digits(s) && digits_value(s) <= max
}

/// An unsigned 16-bit integer in decimal, with an optional leading `+`.
pub open spec fn parse_u16_spec(s: Seq<char>) -> Option<u16> {
    let body = if s.len() > 0 && s[0] == '+' { s.drop_first() } else { s };
    if decimal_up_to(body, 65535) {
        Some(digits_value(body) as u16)
    } else {
        None
    }
}

/// A signed 16-bit integer in decimal, with an optional leading `+` or `-`.
pub open spec fn parse_i16_spec(s: Seq<char>) -> Option<i16> {
    if s.len() > 0 && s[0] == '-' {
        if decimal_up_to(s.drop_first(), 32768) {
            Some((-digits_value(s.drop_first())) as i16)
        } else {
            None
        }
    } else {
        let body = if s.len() > 0 && s[0] == '+' { s.drop_first() } else { s };
        if decimal_up_to(body, 32767) {
            Some(digits_value(body) as i16)
        } else {
            None
        }
    }
}

/// The value text of a field whose value starts at `start`: up to the next
/// comma, or to the end of the line; empty when `start` lies past the end.
pub open spec fn value_field(s: Seq<char>, start: int) -> Seq<char> {
    if start > s.len() {
        Seq::empty()
    } else {
        match find_from(s, seq![','], start) {
            Some(end) => s.subrange(start, end),
            None => s.subrange(start, s.len() as int),
        }
    }
}

/// The value text of the field tagged `tag`: it starts three characters after
/// the first occurrence of the tag.
pub open spec fn tagged_field(s: Seq<char>, tag: Seq<char>) -> Option<Seq<char>> {
    match find_from(s, tag, 0) {
        Some(at) => Some(trim(value_field(s, at + 3))),
        None => None,
    }
}

/// What a telemetry line holds: the distance after `D:` and the angle after
/// `A:`, or nothing when either tag is missing or either value does not parse.
pub open spec fn parse_spec(s: Seq<char>) -> Option<(u16, i16)> {
    match (tagged_field(s, seq!['D', ':']), tagged_field(s, seq!['A', ':'])) {
        (Some(d), Some(a)) => match (parse_u16_spec(d), parse_i16_spec(a)) {
            (Some(distance), Some(angle)) => Some((distance, angle)),
            _ => None,
        },
        _ => None,
    }
}

pub open spec fn opt_index(r: Option<usize>) -> Option<int> {
    match r {
        Some(k) => Some(k as int),
        None => None,
    }
}

fn is_white_space_char(c: char) -> (r: bool)
    ensures
        r == is_white_space(c),
{
    let v = c as u32;
    (9 <= v && v <= 13) || v == 32 || v == 0x85 || v == 0xa0 || v == 0x1680 || (0x2000 <= v && v
        <= 0x200a) || v == 0x2028 || v == 0x2029 || v == 0x202f || v == 0x205f || v == 0x3000
}

/// First occurrence, at or after `from`, of the two characters `first` `second`.
fn find_pair(line: &str, len: usize, first: char, second: char, from: usize) -> (r: Option<usize>)
    requires
        len == line@.len(),
    ensures
        opt_index(r) == find_from(line@, seq![first, second], from as int),
{
    let ghost pat = seq![first, second];
    let mut i = from;
    while i < len && i + 1 < len
        invariant
            len == line@.len(),
            pat == seq![first, second],
            from <= i,
            find_from(line@, pat, from as int) == find_from(line@, pat, i as int),
        decreases len - i,
    {
        let a = line.get_char(i);
        let b = line.get_char(i + 1);
        assert(pat.len() == 2 && pat[0] == first && pat[1] == second);
        if a == first && b == second {
            assert(line@.subrange(i as int, i + 2) =~= pat);
            return Some(i);
        }
        assert(line@.subrange(i as int, i + 2) != pat) by {
            if line@.subrange(i as int, i + 2) == pat {
                assert(line@.subrange(i as int, i + 2)[0] == first);
                assert(line@.subrange(i as int, i + 2)[1] == second);
            }
        }
        i = i + 1;
    }
    None
}

/// First comma at or after `from`.
fn find_comma(line: &str, len: usize, from: usize) -> (r: Option<usize>)
    requires
        len == line@.len(),
    ensures
        opt_index(r) == find_from(line@, seq![','], from as int),
{
    let ghost pat = seq![','];
    let mut i = from;
    while i < len
        invariant
            len == line@.len(),
            pat == seq![','],
            from <= i,
            find_from(line@, pat, from as int) == find_from(line@, pat, i as int),
        decreases len - i,
    {
        let c = line.get_char(i);
        assert(pat.len() == 1 && pat[0] == ',');
        if c == ',' {
            assert(line@.subrange(i as int, i + 1) =~= pat);
            return Some(i);
        }
        assert(line@.subrange(i as int, i + 1) != pat) by {
            if line@.subrange(i as int, i + 1) == pat {
                assert(line@.subrange(i as int, i + 1)[0] == ',');
            }
        }
        i = i + 1;
    }
    None
}

proof fn lemma_digits_value_nonneg(s: Seq<char>)
    requires
        all_digits(s),
    ensures
        digits_value(s) >= 0,
    decreases s.len(),
{
    if s.len() > 0 {
        assert(is_digit(s[s.len() - 1]));
        lemma_digits_value_nonneg(s.drop_last());
    }
}

/// A prefix of a digit string is worth no more than the whole string.
proof fn lemma_digits_value_prefix(s: Seq<char>, k: int)
    requires
        all_digits(s),
        0 <= k <= s.len(),
    ensures
        digits_value(s.subrange(0, k)) <= digits_value(s),
    decreases s.len(),
{
    if k < s.len() {
        let t = s.drop_last();
        assert(all_digits(t)) by {
            assert forall|i: int| 0 <= i < t.len() implies is_digit(#[trigger] t[i]) by {
                assert(t[i] == s[i]);
            }
        }
        lemma_digits_value_prefix(t, k);
        assert(t.subrange(0, k) =~= s.subrange(0, k));
        lemma_digits_value_nonneg(t);
        assert(is_digit(s[s.len() - 1]));
    } else {
        assert(s.subrange(0, k) =~= s);
    }
}

/// Bounds of `line@[lo..hi]` with white space taken off both ends.
fn trim_bounds(line: &str, lo: usize, hi: usize) -> (r: (usize, usize))
    requires
        lo <= hi <= line@.len(),
    ensures
        lo <= r.0 <= r.1 <= hi,
        line@.subrange(r.0 as int, r.1 as int) == trim(line@.subrange(lo as int, hi as int)),
{
    let mut start = lo;
    while start < hi && is_white_space_char(line.get_char(start))
        invariant
            lo <= start <= hi <= line@.len(),
            trim_start(line@.subrange(lo as int, hi as int)) == trim_start(
                line@.subrange(start as int, hi as int),
            ),
        decreases hi - start,
    {
        assert(line@.subrange(start as int, hi as int).drop_first() =~= line@.subrange(
            start + 1,
            hi as int,
        ));
        start = start + 1;
    }
    assert(trim_start(line@.subrange(start as int, hi as int)) == line@.subrange(
        start as int,
        hi as int,
    ));
    let mut end = hi;
    while end > start && is_white_space_char(line.get_char(end - 1))
        invariant
            lo <= start <= end <= hi <= line@.len(),
            trim_start(line@.subrange(lo as int, hi as int)) == line@.subrange(
                start as int,
                hi as int,
            ),
            trim_end(line@.subrange(start as int, hi as int)) == trim_end(
                line@.subrange(start as int, end as int),
            ),
        decreases end - start,
    {
        assert(line@.subrange(start as int, end as int).drop_last() =~= line@.subrange(
            start as int,
            end - 1,
        ));
        end = end - 1;
    }
    assert(trim_end(line@.subrange(start as int, end as int)) == line@.subrange(
        start as int,
        end as int,
    ));
    (start, end)
}

/// Value of the decimal digits `line@[lo..hi]`, or `None` unless they are a
/// non-empty run of digits worth at most `max`.
fn parse_digits(line: &str, lo: usize, hi: usize, max: u32) -> (r: Option<u32>)
    requires
        lo <= hi <= line@.len(),
        max <= 65535,
    ensures
        match r {
            Some(v) => decimal_up_to(line@.subrange(lo as int, hi as int), max as int) && v
                == digits_value(line@.subrange(lo as int, hi as int)),
            None => !decimal_up_to(line@.subrange(lo as int, hi as int), max as int),
        },
{
    let ghost whole = line@.subrange(lo as int, hi as int);
    if lo == hi {
        return None;
    }
    let mut value: u32 = 0;
    let mut i = lo;
    assert(line@.subrange(lo as int, lo as int) =~= Seq::<char>::empty());
    while i < hi
        invariant
            lo <= i <= hi <= line@.len(),
            max <= 65535,
            whole == line@.subrange(lo as int, hi as int),
            all_digits(line@.subrange(lo as int, i as int)),
            value == digits_value(line@.subrange(lo as int, i as int)),
            value <= max,
        decreases hi - i,
    {
        let c = line.get_char(i);
        let code = c as u32;
        if code < 48 || code > 57 {
            assert(!is_digit(whole[i - lo]));
            return None;
        }
        let next: u32 = value * 10 + (code - 48);
        let ghost prefix = line@.subrange(lo as int, i + 1);
        assert(prefix.drop_last() =~= line@.subrange(lo as int, i as int));
        assert(all_digits(prefix)) by {
            assert forall|j: int| 0 <= j < prefix.len() implies is_digit(#[trigger] prefix[j]) by {
                if j < prefix.len() - 1 {
                    assert(prefix[j] == line@.subrange(lo as int, i as int)[j]);
                }
            }
        }
        if next > max {
            proof {
                if all_digits(whole) {
                    lemma_digits_value_prefix(whole, i + 1 - lo);
                    assert(whole.subrange(0, i + 1 - lo) =~= prefix);
                }
            }
            return None;
        }
        value = next;
        i = i + 1;
    }
    assert(line@.subrange(lo as int, i as int) =~= whole);
    Some(value)
}

/// The unsigned value of `line@[lo..hi]`, as `u16::from_str` reads it.
fn parse_u16_range(line: &str, lo: usize, hi: usize) -> (r: Option<u16>)
    requires
        lo <= hi <= line@.len(),
    ensures
        r == parse_u16_spec(line@.subrange(lo as int, hi as int)),
{
    let ghost s = line@.subrange(lo as int, hi as int);
    let start = if lo < hi && line.get_char(lo) == '+' {
        assert(s.drop_first() =~= line@.subrange(lo + 1, hi as int));
        lo + 1
    } else {
        lo
    };
    match parse_digits(line, start, hi, 65535) {
        Some(v) => Some(v as u16),
        None => None,
    }
}

/// The signed value of `line@[lo..hi]`, as `i16::from_str` reads it.
fn parse_i16_range(line: &str, lo: usize, hi: usize) -> (r: Option<i16>)
    requires
        lo <= hi <= line@.len(),
    ensures
        r == parse_i16_spec(line@.subrange(lo as int, hi as int)),
{
    let ghost s = line@.subrange(lo as int, hi as int);
    if lo < hi && line.get_char(lo) == '-' {
        assert(s.drop_first() =~= line@.subrange(lo + 1, hi as int));
        match parse_digits(line, lo + 1, hi, 32768) {
            Some(v) => Some((-(v as i32)) as i16),
            None => None,
        }
    } else {
        let start = if lo < hi && line.get_char(lo) == '+' {
            assert(s.drop_first() =~= line@.subrange(lo + 1, hi as int));
            lo + 1
        } else {
            lo
        };
        match parse_digits(line, start, hi, 32767) {
            Some(v) => Some(v as i16),
            None => None,
        }
    }
}

/// Bounds of the value text of a field whose value starts at `start`.
fn field_bounds(line: &str, len: usize, start: usize) -> (r: (usize, usize))
    requires
        len == line@.len(),
    ensures
        r.0 <= r.1 <= len,
        line@.subrange(r.0 as int, r.1 as int) == value_field(line@, start as int),
{
    if start > len {
        assert(line@.subrange(len as int, len as int) =~= Seq::<char>::empty());
        return (len, len);
    }
    match find_comma(line, len, start) {
        Some(end) => {
            proof {
                lemma_find_from_bounds(line@, seq![','], start as int);
            }
            (start, end)
        },
        None => (start, len),
    }
}

/// Where `find_from` finds the pattern, it occurs there, at or after the start.
proof fn lemma_find_from_bounds(s: Seq<char>, pat: Seq<char>, i: int)
    ensures
        match find_from(s, pat, i) {
            Some(k) => i <= k && k + pat.len() <= s.len() && s.subrange(k, k + pat.len()) == pat,
            None => true,
        },
    decreases s.len() + 1 - i,
{
    if !(i < 0 || i + pat.len() > s.len()) && s.subrange(i, i + pat.len()) != pat {
        lemma_find_from_bounds(s, pat, i + 1);
    }
}

/// Bounds of the trimmed value text of the field whose tag starts at `at`.
fn tagged_bounds(line: &str, len: usize, at: usize) -> (r: (usize, usize))
    requires
        len == line@.len(),
    ensures
        r.0 <= r.1 <= len,
        line@.subrange(r.0 as int, r.1 as int) == trim(value_field(line@, at + 3)),
{
    let (lo, hi) = match at.checked_add(3) {
        Some(start) => field_bounds(line, len, start),
        None => {
            assert(line@.subrange(len as int, len as int) =~= Seq::<char>::empty());
            (len, len)
        },
    };
    trim_bounds(line, lo, hi)
}

/// Reads the distance and angle from a telemetry line such as `D: 150, A: -12`.
///
/// The distance follows the first `D:` and the angle the first `A:`, in
/// either order; each value starts three characters after its tag and runs to
/// the next comma or the end of the line, and is read with surrounding white
/// space removed. A missing tag or a value that is not a number of the right
/// range gives `None`.
pub fn parse_distance_angle(data: &str) -> (r: Option<(u16, i16)>)
    ensures
        r == parse_spec(data@),
{
    let len = data.unicode_len();
    let d_at = match find_pair(data, len, 'D', ':', 0) {
        Some(k) => k,
        None => return None,
    };
    let a_at = match find_pair(data, len, 'A', ':', 0) {
        Some(k) => k,
        None => return None,
    };
    let (d_lo, d_hi) = tagged_bounds(data, len, d_at);
    let (a_lo, a_hi) = tagged_bounds(data, len, a_at);
    let distance = match parse_u16_range(data, d_lo, d_hi) {
        Some(v) => v,
        None => return None,
    };
    let angle = match parse_i16_range(data, a_lo, a_hi) {
        Some(v) => v,
        None => return None,
    };
    Some((distance, angle))
}

/// A line in which one of the tags `D:` and `A:` occurs nowhere holds no reading.
pub proof fn lemma_missing_tag_gives_none(s: Seq<char>)
    requires
        (forall|i: int| 0 <= i && i + 2 <= s.len() ==> #[trigger] s.subrange(i, i + 2) != seq!['D', ':'])
            || (forall|i: int|
            0 <= i && i + 2 <= s.len() ==> #[trigger] s.subrange(i, i + 2) != seq!['A', ':']),
    ensures
        parse_spec(s) is None,
{
    lemma_find_from_bounds(s, seq!['D', ':'], 0);
    lemma_find_from_bounds(s, seq!['A', ':'], 0);
}

/// The character of a decimal digit.
pub open spec fn digit_char(n: int) -> char {
    ((n + 48) as u8) as char
}

/// `n` in decimal, without leading zeros.
pub open spec fn decimal(n: nat) -> Seq<char>
    decreases n,
{
    if n < 10 {
        seq![digit_char(n as int)]
    } else {
        decimal(n / 10).push(digit_char((n % 10) as int))
    }
}

/// `a` in decimal, with a leading `-` when negative.
pub open spec fn signed_decimal(a: int) -> Seq<char> {
    if a < 0 {
        seq!['-'] + decimal((-a) as nat)
    } else {
        decimal(a as nat)
    }
}

/// The line `D: <distance>, A: <angle>`.
pub open spec fn telemetry_line(distance: u16, angle: i16) -> Seq<char> {
    seq!['D', ':', ' '] + decimal(distance as nat) + seq![',', ' ', 'A', ':', ' '] + signed_decimal(
        angle as int,
    )
}

proof fn lemma_decimal(n: nat)
    ensures
        decimal(n).len() > 0,
        all_digits(decimal(n)),
        digits_value(decimal(n)) == n,
    decreases n,
{
    if n < 10 {
        assert(decimal(n).drop_last() =~= Seq::<char>::empty());
        assert(digit_char(n as int) as u32 == n + 48);
        assert(digits_value(Seq::<char>::empty()) == 0);
        assert(decimal(n).last() == digit_char(n as int));
    } else {
        lemma_decimal(n / 10);
        let s = decimal(n);
        assert(s.drop_last() =~= decimal(n / 10));
        assert(digit_char((n % 10) as int) as u32 == n % 10 + 48);
        assert((n / 10) * 10 + n % 10 == n) by (nonlinear_arith);
        assert(s.last() == digit_char((n % 10) as int));
        assert(digits_value(s) == digits_value(decimal(n / 10)) * 10 + (n % 10));
        assert forall|i: int| 0 <= i < s.len() implies is_digit(#[trigger] s[i]) by {
            if i < s.len() - 1 {
                assert(s[i] == decimal(n / 10)[i]);
            }
        }
    }
}

/// Where no character in `s[i..j]` starts `pat`, a search from `i` finds
/// what a search from `j` finds.
proof fn lemma_find_from_skip(s: Seq<char>, pat: Seq<char>, i: int, j: int)
    requires
        pat.len() > 0,
        0 <= i <= j <= s.len(),
        forall|k: int| i <= k < j ==> #[trigger] s[k] != pat[0],
    ensures
        find_from(s, pat, i) == find_from(s, pat, j),
    decreases j - i,
{
    if i < j {
        if i + pat.len() <= s.len() {
            assert(s.subrange(i, i + pat.len())[0] == s[i]);
        }
        lemma_find_from_skip(s, pat, i + 1, j);
    }
}

/// A decimal number is its own trimmed text: it neither starts nor ends
/// with white space.
proof fn lemma_trim_keeps(s: Seq<char>)
    requires
        s.len() > 0,
        !is_white_space(s[0]),
        !is_white_space(s.last()),
    ensures
        trim(s) == s,
{
}

/// Every well-formed line `D: <d>, A: <a>` reads back as exactly `(d, a)`.
pub proof fn lemma_parse_well_formed_line(distance: u16, angle: i16)
    ensures
        parse_spec(telemetry_line(distance, angle)) == Some((distance, angle)),
{
    let dd = decimal(distance as nat);
    let mag: nat = if angle < 0 { (-angle) as nat } else { angle as nat };
    let aa = signed_decimal(angle as int);
    let line = telemetry_line(distance, angle);
    lemma_decimal(distance as nat);
    lemma_decimal(mag);
    let p: int = 3 + dd.len() as int;
    assert(line.len() == p + 5 + aa.len());
    assert forall|k: int| 3 <= k < p implies #[trigger] line[k] == dd[k - 3] by {}
    assert forall|k: int| p + 5 <= k < line.len() implies #[trigger] line[k] == aa[k - p - 5] by {}
    assert(line[p] == ',' && line[p + 1] == ' ' && line[p + 2] == 'A' && line[p + 3] == ':');
    assert(aa.len() > 0 && (aa[0] == '-' || is_digit(aa[0])) && is_digit(aa.last())) by {
        if angle < 0 {
            assert(aa.drop_first() =~= decimal(mag));
            assert(aa.last() == decimal(mag).last());
        }
    }
    assert forall|k: int| 0 <= k < aa.len() && k > 0 implies is_digit(#[trigger] aa[k]) by {
        if angle < 0 {
            assert(aa[k] == decimal(mag)[k - 1]);
        }
    }
    // the distance tag
    assert(line.subrange(0, 2) =~= seq!['D', ':']);
    // the angle tag
    assert forall|k: int| 0 <= k < p + 2 implies #[trigger] line[k] != seq!['A', ':'][0] by {
        if 3 <= k < p {
            assert(is_digit(dd[k - 3]));
        }
    }
    lemma_find_from_skip(line, seq!['A', ':'], 0, p + 2);
    assert(line.subrange(p + 2, p + 4) =~= seq!['A', ':']);
    // the distance value
    assert forall|k: int| 3 <= k < p implies #[trigger] line[k] != seq![','][0] by {
        assert(is_digit(dd[k - 3]));
    }
    lemma_find_from_skip(line, seq![','], 3, p);
    assert(line.subrange(p, p + 1) =~= seq![',']);
    assert(line.subrange(3, p) =~= dd);
    assert(value_field(line, 3) == dd);
    assert(is_digit(dd[0]) && is_digit(dd.last()));
    lemma_trim_keeps(dd);
    // the angle value
    assert forall|k: int| p + 5 <= k < line.len() implies #[trigger] line[k] != seq![','][0] by {
        if k > p + 5 {
            assert(is_digit(aa[k - p - 5]));
        }
    }
    lemma_find_from_skip(line, seq![','], p + 5, line.len() as int);
    assert(line.subrange(p + 5, line.len() as int) =~= aa);
    assert(value_field(line, p + 5) == aa);
    lemma_trim_keeps(aa);
    assert(tagged_field(line, seq!['D', ':']) == Some(dd));
    assert(tagged_field(line, seq!['A', ':']) == Some(aa));
    assert(parse_u16_spec(dd) == Some(distance));
    if angle < 0 {
        assert(aa.drop_first() =~= decimal(mag));
    }
    assert(parse_i16_spec(aa) == Some(angle));
}

} // verus!
