//! The pure parts of a load generator that fills an S3 bucket with copies of one
//! object made of identical records: record and object contents, object keys, the
//! bucket's location constraint, and the parsing of the object-size argument.
use vstd::prelude::*;
use crate::decimal::zero_padded;
use crate::decimal::digits_value;
use crate::decimal::all_digits;
use crate::decimal::decimal;
use crate::decimal::lemma_decimal;
use crate::decimal::zero_padded_digits;
use crate::decimal::push_all;
use crate::decimal::push_char;
use crate::decimal::lemma_zero_padded;

verus! {

/// One record: `line_bytes` letters `A` followed by a newline.
pub open spec fn record_line_text(line_bytes: nat) -> Seq<char> {
    Seq::new(line_bytes, |_i: int| 'A').push('\n')
}

/// `s` repeated `k` times.
pub open spec fn repeat(s: Seq<char>, k: nat) -> Seq<char>
    decreases k,
{
    if k == 0 {
        Seq::empty()
    } else {
        repeat(s, (k - 1) as nat) + s
    }
}

/// How many records of `line_size` bytes an object of `object_size` bytes holds:
/// the largest whole number of records whose total length is at most `object_size`.
pub open spec fn lines_per_object(line_size: nat, object_size: nat) -> nat
    recommends
        line_size > 0,
{
    object_size / line_size
}

/// The contents of the generated object.
pub open spec fn object_body_text(line_bytes: nat, object_size: nat) -> Seq<char> {
    repeat(record_line_text(line_bytes), lines_per_object(line_bytes + 1, object_size))
}

/// The key of the object with the given index: the prefix followed by the index,
/// zero-padded to five digits (`{}{:>05}`).
pub open spec fn object_key_text(key_prefix: Seq<char>, index: nat) -> Seq<char> {
    key_prefix + zero_padded(index, 5)
}

/// `k` copies of `s` are `k` times as long as `s`.
pub proof fn lemma_repeat_len(s: Seq<char>, k: nat)
    ensures
        repeat(s, k).len() == k * s.len(),
    decreases k,
{
    if k > 0 {
        lemma_repeat_len(s, (k - 1) as nat);
        let j = (k - 1) as nat;
        assert(j * s.len() + s.len() == (j + 1) * s.len()) by (nonlinear_arith);
    } else {
        assert(0 * s.len() == 0) by (nonlinear_arith);
    }
}

/// The generated object is as large as the requested size allows: it is no longer
/// than `object_size` bytes, and one more record would make it longer.
pub proof fn lemma_object_body_size(line_bytes: nat, object_size: nat)
    ensures
        object_body_text(line_bytes, object_size).len() <= object_size,
        object_body_text(line_bytes, object_size).len() + line_bytes + 1 > object_size,
{
    let line_size = line_bytes + 1;
    let k = lines_per_object(line_size, object_size);
    lemma_repeat_len(record_line_text(line_bytes), k);
    assert(record_line_text(line_bytes).len() == line_size);
    assert(k * line_size <= object_size && object_size < k * line_size + line_size)
        by (nonlinear_arith)
        requires
            k == object_size / line_size,
            line_size > 0,
    ;
}

/// Distinct indices give distinct object keys under one prefix.
pub proof fn lemma_object_keys_distinct(key_prefix: Seq<char>, i: nat, j: nat)
    requires
        i != j,
    ensures
        object_key_text(key_prefix, i) != object_key_text(key_prefix, j),
{
    lemma_zero_padded(i, 5);
    lemma_zero_padded(j, 5);
    if object_key_text(key_prefix, i) == object_key_text(key_prefix, j) {
        let n = key_prefix.len() as int;
        assert(object_key_text(key_prefix, i).skip(n) =~= zero_padded(i, 5));
        assert(object_key_text(key_prefix, j).skip(n) =~= zero_padded(j, 5));
        assert(digits_value(zero_padded(i, 5)) == digits_value(zero_padded(j, 5)));
    }
}

/// Builds one record of `line_bytes` letters `A` and a newline.
pub fn record_line(line_bytes: usize) -> (r: String)
    ensures
        r@ == record_line_text(line_bytes as nat),
{
    let mut line = String::new();
    let mut i: usize = 0;
    while i < line_bytes
        invariant
            i <= line_bytes,
            line@ =~= Seq::new(i as nat, |_j: int| 'A'),
        decreases line_bytes - i,
    {
        push_char(&mut line, 'A');
        i = i + 1;
    }
    push_char(&mut line, '\n');
    line
}

/// The number of records of `line_size` bytes that fit in an object of at most
/// `object_size` bytes.
pub fn object_line_count(line_size: usize, object_size: usize) -> (r: usize)
    requires
        line_size > 0,
    ensures
        r == lines_per_object(line_size as nat, object_size as nat),
{
    object_size / line_size
}

/// Builds the object: as many records of `line_bytes` letters as fit in
/// `object_size` bytes.
pub fn object_body(line_bytes: usize, object_size: usize) -> (r: String)
    requires
        line_bytes < usize::MAX,
    ensures
        r@ == object_body_text(line_bytes as nat, object_size as nat),
{
    let line = record_line(line_bytes);
    let count = object_line_count(line_bytes + 1, object_size);
    let mut body = String::new();
    let mut i: usize = 0;
    while i < count
        invariant
            i <= count,
            line@ == record_line_text(line_bytes as nat),
            body@ == repeat(line@, i as nat),
        decreases count - i,
    {
        body.append(line.as_str());
        i = i + 1;
    }
    body
}

/// The key of object number `index`: `key_prefix` then `index` zero-padded to five
/// digits.
pub fn object_key(key_prefix: &str, index: usize) -> (r: String)
    ensures
        r@ == object_key_text(key_prefix@, index as nat),
{
    let digits = zero_padded_digits(index as u64, 5);
    let mut key = String::from_str(key_prefix);
    push_all(&mut key, &digits);
    key
}

/// The copy source `bucket/key` of the first object.
pub fn copy_source(bucket: &str, key: &str) -> (r: String)
    ensures
        r@ == bucket@ + seq!['/'] + key@,
{
    let mut source = String::from_str(bucket);
    push_char(&mut source, '/');
    source.append(key);
    source
}

/// The region whose buckets take no location constraint.
pub open spec fn default_region() -> Seq<char> {
    "us-east-1"@
}

/// The location constraint for a new bucket in `region`: none without a region or
/// in us-east-1, which does not accept one; else the region itself.
pub fn location_constraint(region: Option<&str>) -> (r: Option<String>)
    ensures
        match region {
            None => r is None,
            Some(name) => if name@ == default_region() {
                r is None
            } else {
                r matches Some(c) && c@ == name@
            },
        },
{
    match region {
        None => None,
        Some(name) => {
            let given = String::from_str(name);
            let special = String::from_str("us-east-1");
            if given == special {
                None
            } else {
                Some(given)
            }
        },
    }
}

/// What `bytefmt::parse` makes of a string: the byte count, or `None` where it
/// reports an error.
pub uninterp spec fn bytefmt_parse(text: Seq<char>) -> Option<u64>;

/// The message of every error that `bytefmt::parse` returns.
pub open spec fn byte_format_error() -> Seq<char> {
    "Parse Error. Invalid byte format."@
}

/// The error of an object size that does not fit in a `usize`.
pub open spec fn object_size_overflow_error() -> Seq<char> {
    "Parse Error. Object size does not fit in usize."@
}

/// What `char::is_numeric` says of a character: whether Unicode classes it as a
/// number (decimal digits, letter numbers and other numbers).
pub uninterp spec fn char_numeric(c: char) -> bool;

/// Tests a character with `char::is_numeric`. The contract claims only that the
/// answer is the one `char_numeric` names for `c`.
#[verifier::external_body]
fn is_numeric_char(c: char) -> (r: bool)
    ensures
        r == char_numeric(c),
{
    c.is_numeric()
}

/// True when no character of `text` outside ASCII is numeric. Every Unicode
/// decimal digit is numeric, so such text holds no non-ASCII decimal digit.
pub open spec fn no_foreign_digits(text: Seq<char>) -> bool {
    forall|i: int| 0 <= i < text.len() ==> (text[i] as u32) < 128 || !char_numeric(#[trigger] text[i])
}

/// The lower-case form of an ASCII letter; other characters are unchanged.
pub open spec fn ascii_lower(c: char) -> char {
    if 'A' <= c && c <= 'Z' {
        ((c as u32) + 32) as char
    } else {
        c
    }
}

/// `s` with its ASCII letters in lower case.
pub open spec fn lowered(s: Seq<char>) -> Seq<char> {
    s.map_values(|c: char| ascii_lower(c))
}

/// The number of bytes in one unit of bytefmt's pattern, in any letter case: no unit
/// or `B` is one byte, `KB` to `PB` are powers of 1000 and `KiB` to `PiB` powers of
/// 1024; `None` for any other text.
pub open spec fn unit_multiplier(unit: Seq<char>) -> Option<nat> {
    let u = lowered(unit);
    if u == Seq::<char>::empty() || u == seq!['b'] {
        Some(1)
    } else if u == seq!['k', 'b'] {
        Some(1000)
    } else if u == seq!['m', 'b'] {
        Some(1000000)
    } else if u == seq!['g', 'b'] {
        Some(1000000000)
    } else if u == seq!['t', 'b'] {
        Some(1000000000000)
    } else if u == seq!['p', 'b'] {
        Some(1000000000000000)
    } else if u == seq!['k', 'i', 'b'] {
        Some(1024)
    } else if u == seq!['m', 'i', 'b'] {
        Some(1048576)
    } else if u == seq!['g', 'i', 'b'] {
        Some(1073741824)
    } else if u == seq!['t', 'i', 'b'] {
        Some(1099511627776)
    } else if u == seq!['p', 'i', 'b'] {
        Some(1125899906842624)
    } else {
        None
    }
}

/// A plain size text: the digits of a whole count, then some spaces, then a unit.
pub open spec fn plain_size_text(digits: Seq<char>, spaces: nat, unit: Seq<char>) -> Seq<char> {
    digits + Seq::new(spaces, |_i: int| ' ') + unit
}

/// 2 to the 53: every whole number below it is exact as an `f64`.
pub open spec fn exact_float_limit() -> nat {
    9007199254740992
}

/// The byte count that a plain size text stands for: its count times its unit.
pub open spec fn plain_size_bytes(digits: Seq<char>, unit: Seq<char>) -> int {
    digits_value(digits) * unit_multiplier(unit).unwrap()
}

/// True when a plain size text is well formed and its byte count is exact in
/// floating point: at least one digit, a known unit, and a product below 2^53.
pub open spec fn plain_size_exact(digits: Seq<char>, unit: Seq<char>) -> bool {
    &&& digits.len() > 0
    &&& all_digits(digits)
    &&& unit_multiplier(unit) is Some
    &&& plain_size_bytes(digits, unit) < exact_float_limit()
}

/// `r` is the count times the unit whenever `text` is an exact plain size text.
pub open spec fn reads_plain_sizes(text: Seq<char>, r: Result<u64, &'static str>) -> bool {
    forall|digits: Seq<char>, spaces: nat, unit: Seq<char>|
        text == #[trigger] plain_size_text(digits, spaces, unit) && plain_size_exact(digits, unit)
            ==> r == Ok::<u64, &'static str>(plain_size_bytes(digits, unit) as u64)
}

/// Any whole count written in decimal, followed by any number of spaces and a unit
/// in any letter case, is a plain size text for count times unit.
pub proof fn lemma_decimal_size_text(count: nat, unit: Seq<char>)
    requires
        unit_multiplier(unit) is Some,
        count * unit_multiplier(unit).unwrap() < exact_float_limit(),
    ensures
        plain_size_exact(decimal(count), unit),
        plain_size_bytes(decimal(count), unit) == count * unit_multiplier(unit).unwrap(),
{
    lemma_decimal(count);
}

/// A plain size text is ASCII, so it holds no non-ASCII numeric character.
pub proof fn lemma_plain_size_text_is_plain(digits: Seq<char>, spaces: nat, unit: Seq<char>)
    requires
        plain_size_exact(digits, unit),
    ensures
        no_foreign_digits(plain_size_text(digits, spaces, unit)),
{
    let text = plain_size_text(digits, spaces, unit);
    let u = lowered(unit);
    assert(u.len() == unit.len());
    assert forall|j: int| 0 <= j < unit.len() implies (#[trigger] unit[j] as u32) < 128 by {
        assert(u[j] == ascii_lower(unit[j]));
        assert((u[j] as u32) < 128);
    }
    assert forall|i: int| 0 <= i < text.len() implies (text[i] as u32) < 128 || !char_numeric(
        #[trigger] text[i],
    ) by {
        if i < digits.len() {
            assert(text[i] == digits[i]);
        } else if i < digits.len() + spaces {
            assert(text[i] == ' ');
        } else {
            assert(text[i] == unit[i - digits.len() - spaces]);
        }
    }
}

/// Units are read without regard to letter case.
pub proof fn lemma_unit_case_insensitive(unit1: Seq<char>, unit2: Seq<char>)
    requires
        lowered(unit1) == lowered(unit2),
    ensures
        unit_multiplier(unit1) == unit_multiplier(unit2),
{
}

/// Parses a byte size such as `1 KiB` with `bytefmt::parse`. The contract claims
/// that the count is the one `bytefmt_parse` names for `text`, and that an error
/// carries bytefmt's single error message (its source returns no other). bytefmt's
/// pattern accepts any Unicode decimal digit and then panics reading a non-ASCII
/// one as a float, so the text must hold no non-ASCII numeric character.
///
/// The contract also claims what bytefmt's source gives for plain text: a count of
/// ASCII digits, spaces, and a unit matched case-insensitively (its pattern is
/// `^(?i)(\d+(\.\d+)?) *((k|m|g|t|p|ki|mi|gi|ti|pi)?b)?$`) parse to the count times
/// the unit. The count and the product go through `f64`, which is exact for whole
/// numbers below 2^53, so the claim is limited to those.
#[verifier::external_body]
fn parse_byte_size(text: &str) -> (r: Result<u64, &'static str>)
    requires
        no_foreign_digits(text@),
    ensures
        match r {
            Ok(n) => bytefmt_parse(text@) == Some(n),
            Err(e) => bytefmt_parse(text@) is None && e@ == byte_format_error(),
        },
        reads_plain_sizes(text@, r),
{
    bytefmt::parse(text)
}

/// Turns the result of parsing a byte size into an object size: a count keeps its
/// value as a `usize`, an error passes through, and a count beyond `usize::MAX`
/// becomes an error.
pub fn object_size_from_parsed(parsed: Result<u64, &'static str>) -> (r: Result<usize, &'static str>)
    ensures
        match parsed {
            Ok(n) => if n <= usize::MAX {
                r == Ok::<usize, &'static str>(n as usize)
            } else {
                r matches Err(e) && e@ == object_size_overflow_error()
            },
            Err(e) => r == Err::<usize, &'static str>(e),
        },
{
    match parsed {
        Ok(n) => {
            if n <= usize::MAX as u64 {
                Ok(n as usize)
            } else {
                let msg: &'static str = "Parse Error. Object size does not fit in usize.";
                proof {
                    reveal_strlit("Parse Error. Object size does not fit in usize.");
                }
                Err(msg)
            }
        },
        Err(e) => Err(e),
    }
}

/// Parses the object-size argument, such as `1 KiB`, into a byte count. The text
/// must hold no non-ASCII numeric character (see `parse_byte_size`).
pub fn parse_object_size(s: &str) -> (r: Result<usize, &'static str>)
    requires
        no_foreign_digits(s@),
    ensures
        forall|digits: Seq<char>, spaces: nat, unit: Seq<char>|
            s@ == #[trigger] plain_size_text(digits, spaces, unit) && plain_size_exact(digits, unit)
                && plain_size_bytes(digits, unit) <= usize::MAX
                ==> r == Ok::<usize, &'static str>(plain_size_bytes(digits, unit) as usize),
        match bytefmt_parse(s@) {
            Some(n) => if n <= usize::MAX {
                r == Ok::<usize, &'static str>(n as usize)
            } else {
                r matches Err(e) && e@ == object_size_overflow_error()
            },
            None => r matches Err(e) && e@ == byte_format_error(),
        },
{
    let parsed = parse_byte_size(s);
    let r = object_size_from_parsed(parsed);
    proof {
        assert forall|digits: Seq<char>, spaces: nat, unit: Seq<char>|
            s@ == #[trigger] plain_size_text(digits, spaces, unit) && plain_size_exact(digits, unit)
                && plain_size_bytes(digits, unit) <= usize::MAX
            implies r == Ok::<usize, &'static str>(plain_size_bytes(digits, unit) as usize) by {
            assert(reads_plain_sizes(s@, parsed));
            crate::decimal::lemma_digits_value_nonneg(digits);
            let v = digits_value(digits);
            let m = unit_multiplier(unit).unwrap();
            assert(v * m >= 0) by (nonlinear_arith)
                requires
                    v >= 0,
                    m >= 0,
            ;
            assert(parsed == Ok::<u64, &'static str>(plain_size_bytes(digits, unit) as u64));
        }
    }
    r
}

/// Checks whether `s` holds no non-ASCII numeric character.
pub fn has_no_foreign_digits(s: &str) -> (r: bool)
    ensures
        r == no_foreign_digits(s@),
{
    let n = s.unicode_len();
    let mut i: usize = 0;
    while i < n
        invariant
            n == s@.len(),
            i <= n,
            forall|j: int| 0 <= j < i ==> (s@[j] as u32) < 128 || !char_numeric(#[trigger] s@[j]),
        decreases n - i,
    {
        let c = s.get_char(i);
        if (c as u32) >= 128 && is_numeric_char(c) {
            return false;
        }
        i = i + 1;
    }
    true
}

/// `parse_object_size`, or `None` when `s` holds a non-ASCII numeric character, on
/// which the byte-size parser is not called.
pub fn try_parse_object_size(s: &str) -> (r: Option<Result<usize, &'static str>>)
    ensures
        forall|digits: Seq<char>, spaces: nat, unit: Seq<char>|
            s@ == #[trigger] plain_size_text(digits, spaces, unit) && plain_size_exact(digits, unit)
                && plain_size_bytes(digits, unit) <= usize::MAX
                ==> r == Some(Ok::<usize, &'static str>(plain_size_bytes(digits, unit) as usize)),
        match r {
            None => !no_foreign_digits(s@),
            Some(parsed) => no_foreign_digits(s@) && match bytefmt_parse(s@) {
                Some(n) => if n <= usize::MAX {
                    parsed == Ok::<usize, &'static str>(n as usize)
                } else {
                    parsed matches Err(e) && e@ == object_size_overflow_error()
                },
                None => parsed matches Err(e) && e@ == byte_format_error(),
            },
        },
{
    proof {
        assert forall|digits: Seq<char>, spaces: nat, unit: Seq<char>|
            s@ == #[trigger] plain_size_text(digits, spaces, unit) && plain_size_exact(digits, unit)
            implies no_foreign_digits(s@) by {
            lemma_plain_size_text_is_plain(digits, spaces, unit);
        }
    }
    if has_no_foreign_digits(s) {
        Some(parse_object_size(s))
    } else {
        None
    }
}

/// The keys of the objects copied from the first one: indices 1 to
/// `object_count - 1` (none when at most one object is asked for).
pub fn copy_object_keys(key_prefix: &str, object_count: usize) -> (r: Vec<String>)
    ensures
        r.len() == (if object_count > 1 { object_count - 1 } else { 0 }),
        forall|i: int| 0 <= i < r.len() ==> #[trigger] r[i]@ == object_key_text(key_prefix@, (i + 1) as nat),
{
    let mut keys: Vec<String> = Vec::new();
    let mut index: usize = 1;
    while index < object_count
        invariant
            1 <= index,
            index == 1 || index <= object_count,
            keys.len() == index - 1,
            forall|i: int| 0 <= i < keys.len() ==> #[trigger] keys[i]@ == object_key_text(key_prefix@, (i + 1) as nat),
        decreases object_count - index,
    {
        keys.push(object_key(key_prefix, index));
        index = index + 1;
    }
    keys
}

} // verus!
