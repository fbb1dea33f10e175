//! A parser for the kernel's mount-table listing: one record per line,
//! space-delimited fields, a variable-length optional-field section closed
//! by a lone `-` token, and octal-escaped path bytes.

use vstd::prelude::*;
use crate::codec::{SPACE, TAB, NEWLINE, unescape_octals_spec, unescape_octals};
use crate::text::{lossy_utf8_of, quoted_text_spec, quoted_text, lossy_string};

verus! {

/// The byte `'\r'`.
pub const CARRIAGE_RETURN: u8 = 13;

/// The byte `'#'`, the comment marker.
pub const HASH: u8 = 35;

/// The byte `':'`, the separator between device numbers.
pub const COLON: u8 = 58;

/// The byte `'-'`, the token that closes the optional-field section.
pub const DASH: u8 = 45;

/// The byte `'+'`, tolerated in front of a decimal integer field.
pub const PLUS: u8 = 43;

/// The byte `'0'`.
pub const DIGIT_0: u8 = 48;

/// The byte `'9'`.
pub const DIGIT_9: u8 = 57;

/// The index of the first occurrence of `c` in `s`, or `-1` if there is
/// none.
pub open spec fn find_byte(s: Seq<u8>, c: u8) -> int
    decreases s.len(),
{
    if s.len() == 0 {
        -1
    } else if s[0] == c {
        0
    } else {
        let r = find_byte(s.skip(1), c);
        if r < 0 {
            -1
        } else {
            r + 1
        }
    }
}

/// `find_byte` names the first occurrence: a result of `-1` means the byte
/// does not occur, any other result is its least index.
pub proof fn lemma_find_byte(s: Seq<u8>, c: u8)
    ensures
        find_byte(s, c) == -1 ==> forall|i: int| 0 <= i < s.len() ==> s[i] != c,
        find_byte(s, c) >= 0 ==> {
            let r = find_byte(s, c);
            &&& r < s.len()
            &&& s[r] == c
            &&& forall|i: int| 0 <= i < r ==> s[i] != c
        },
    decreases s.len(),
{
    if s.len() == 0 {
    } else if s[0] == c {
    } else {
        lemma_find_byte(s.skip(1), c);
        assert forall|i: int| 1 <= i < s.len() implies s[i] == s.skip(1)[i - 1] by {}
    }
}

/// The index of the last occurrence of `c` in `s`, or `-1` if there is
/// none.
pub open spec fn find_last_byte(s: Seq<u8>, c: u8) -> int
    decreases s.len(),
{
    if s.len() == 0 {
        -1
    } else if s[s.len() - 1] == c {
        s.len() - 1
    } else {
        find_last_byte(s.take(s.len() - 1), c)
    }
}

/// `find_last_byte` names the last occurrence: a result of `-1` means the
/// byte does not occur, any other result is its greatest index.
pub proof fn lemma_find_last_byte(s: Seq<u8>, c: u8)
    ensures
        find_last_byte(s, c) == -1 ==> forall|i: int| 0 <= i < s.len() ==> s[i] != c,
        find_last_byte(s, c) >= 0 ==> find_last_byte(s, c) < s.len(),
        find_last_byte(s, c) >= 0 ==> s[find_last_byte(s, c)] == c,
        find_last_byte(s, c) >= 0 ==> forall|i: int|
            find_last_byte(s, c) < i < s.len() ==> s[i] != c,
    decreases s.len(),
{
    if s.len() == 0 {
    } else if s[s.len() - 1] == c {
    } else {
        lemma_find_last_byte(s.take(s.len() - 1), c);
        assert forall|i: int| 0 <= i < s.len() - 1 implies s[i] == s.take(s.len() - 1)[i] by {}
    }
}

/// `find_last_byte` finds an occurrence nothing follows.
pub proof fn lemma_find_last_byte_at(s: Seq<u8>, c: u8, i: int)
    requires
        0 <= i < s.len(),
        s[i] == c,
        forall|k: int| i < k < s.len() ==> s[k] != c,
    ensures
        find_last_byte(s, c) == i,
    decreases s.len(),
{
    if i == s.len() - 1 {
    } else {
        let t = s.take(s.len() - 1);
        assert(s[s.len() - 1] != c);
        assert(t[i] == c);
        assert forall|k: int| i < k < t.len() implies t[k] != c by {
            assert(t[k] == s[k]);
        }
        lemma_find_last_byte_at(t, c, i);
    }
}

/// `find_last_byte` finds nothing in a string without the byte.
pub proof fn lemma_find_last_byte_none(s: Seq<u8>, c: u8)
    requires
        forall|k: int| 0 <= k < s.len() ==> s[k] != c,
    ensures
        find_last_byte(s, c) == -1,
    decreases s.len(),
{
    if s.len() > 0 {
        let t = s.take(s.len() - 1);
        assert forall|k: int| 0 <= k < t.len() implies t[k] != c by {
            assert(t[k] == s[k]);
        }
        lemma_find_last_byte_none(t, c);
    }
}

/// A line without its trailing carriage return, if it has one.
pub open spec fn rstrip_cr_spec(s: Seq<u8>) -> Seq<u8> {
    if s.len() > 0 && s[s.len() - 1] == CARRIAGE_RETURN {
        s.take(s.len() - 1)
    } else {
        s
    }
}

/// Strip one trailing carriage return from `row`.
pub fn rstrip_cr(row: &[u8]) -> (r: &[u8])
    ensures
        r@ == rstrip_cr_spec(row@),
{
    if row.len() > 0 && row[row.len() - 1] == CARRIAGE_RETURN {
        &row[0..row.len() - 1]
    } else {
        row
    }
}

/// Whether a line whose first byte has been reached is a comment: the
/// first byte past any spaces and tabs is `#`. A line of only whitespace
/// is not a comment.
pub open spec fn comment_tail_spec(s: Seq<u8>) -> bool
    decreases s.len(),
{
    if s.len() == 0 {
        false
    } else if s[0] == SPACE || s[0] == TAB {
        comment_tail_spec(s.skip(1))
    } else {
        s[0] == HASH
    }
}

/// Whether the line is skipped without producing a record: it is empty, or
/// its first non-whitespace byte is `#`.
pub open spec fn is_comment_line_spec(s: Seq<u8>) -> bool {
    s.len() == 0 || comment_tail_spec(s)
}

/// Whether `row` is empty or a comment line.
pub fn is_comment_line(row: &[u8]) -> (r: bool)
    ensures
        r == is_comment_line_spec(row@),
{
    if row.len() == 0 {
        return true;
    }
    let mut i: usize = 0;
    proof {
        assert(row@.skip(0) =~= row@);
    }
    while i < row.len()
        invariant
            i <= row.len(),
            comment_tail_spec(row@.skip(i as int)) == comment_tail_spec(row@),
        decreases row.len() - i,
    {
        let c = row[i];
        proof {
            assert(row@.skip(i as int).skip(1) =~= row@.skip(i as int + 1));
        }
        if c == SPACE || c == TAB {
            i = i + 1;
        } else {
            return c == HASH;
        }
    }
    proof {
        assert(row@.skip(i as int) =~= Seq::<u8>::empty());
    }
    false
}

/// A byte string without its leading spaces.
pub open spec fn lstrip_spaces_spec(s: Seq<u8>) -> Seq<u8>
    decreases s.len(),
{
    if s.len() == 0 {
        s
    } else if s[0] == SPACE {
        lstrip_spaces_spec(s.skip(1))
    } else {
        s
    }
}

/// Strip leading spaces from `v`.
pub fn lstrip_whitespaces(v: &[u8]) -> (r: &[u8])
    ensures
        r@ == lstrip_spaces_spec(v@),
{
    let mut i: usize = 0;
    proof {
        assert(v@.skip(0) =~= v@);
    }
    while i < v.len()
        invariant
            i <= v.len(),
            lstrip_spaces_spec(v@.skip(i as int)) == lstrip_spaces_spec(v@),
        decreases v.len() - i,
    {
        proof {
            assert(v@.skip(i as int).skip(1) =~= v@.skip(i as int + 1));
        }
        if v[i] != SPACE {
            return &v[i..v.len()];
        }
        i = i + 1;
    }
    proof {
        assert(v@.skip(i as int) =~= Seq::<u8>::empty());
    }
    &v[v.len()..v.len()]
}

/// A byte string without its trailing spaces.
pub open spec fn rstrip_spaces_spec(s: Seq<u8>) -> Seq<u8>
    decreases s.len(),
{
    if s.len() == 0 {
        s
    } else if s[s.len() - 1] == SPACE {
        rstrip_spaces_spec(s.take(s.len() - 1))
    } else {
        s
    }
}

/// Strip trailing spaces from `v`.
pub fn rstrip_whitespaces(v: &[u8]) -> (r: &[u8])
    ensures
        r@ == rstrip_spaces_spec(v@),
{
    let mut j: usize = v.len();
    proof {
        assert(v@.take(v@.len() as int) =~= v@);
    }
    while j > 0
        invariant
            j <= v.len(),
            rstrip_spaces_spec(v@.take(j as int)) == rstrip_spaces_spec(v@),
        decreases j,
    {
        proof {
            assert(v@.take(j as int).take(j as int - 1) =~= v@.take(j as int - 1));
            assert(v@.take(j as int)[j as int - 1] == v@[j as int - 1]);
        }
        if v[j - 1] != SPACE {
            return &v[0..j];
        }
        j = j - 1;
    }
    proof {
        assert(v@.take(0) =~= Seq::<u8>::empty());
    }
    &v[0..0]
}

/// Whether `needle` occurs in `s` starting at index `i`.
pub open spec fn match_at(s: Seq<u8>, needle: Seq<u8>, i: int) -> bool {
    0 <= i && i + needle.len() <= s.len() && s.subrange(i, i + needle.len()) == needle
}

/// The least index at which `needle` occurs in `s`, or `-1` if it does not
/// occur (in particular when it is longer than `s`).
pub open spec fn find_sub(s: Seq<u8>, needle: Seq<u8>) -> int
    decreases s.len(),
{
    if needle.len() > s.len() {
        -1
    } else if s.subrange(0, needle.len() as int) == needle {
        0
    } else if s.len() == 0 {
        -1
    } else {
        let r = find_sub(s.skip(1), needle);
        if r < 0 {
            -1
        } else {
            r + 1
        }
    }
}

/// `find_sub` names the first occurrence of `needle`.
pub proof fn lemma_find_sub(s: Seq<u8>, needle: Seq<u8>)
    ensures
        find_sub(s, needle) == -1 ==> forall|i: int| !match_at(s, needle, i),
        find_sub(s, needle) >= 0 ==> {
            let r = find_sub(s, needle);
            &&& match_at(s, needle, r)
            &&& forall|i: int| 0 <= i < r ==> !match_at(s, needle, i)
        },
    decreases s.len(),
{
    if needle.len() > s.len() {
        assert forall|i: int| !match_at(s, needle, i) by {}
    } else if s.subrange(0, needle.len() as int) == needle {
        assert(match_at(s, needle, 0));
    } else if s.len() == 0 {
        assert(needle.len() == 0);
        assert(s.subrange(0, 0) =~= needle);
        assert(false);
    } else {
        lemma_find_sub(s.skip(1), needle);
        assert(!match_at(s, needle, 0));
        assert forall|i: int| 1 <= i && i + needle.len() <= s.len() implies (match_at(
            s,
            needle,
            i,
        ) == match_at(s.skip(1), needle, i - 1)) by {
            assert(s.subrange(i, i + needle.len()) =~= s.skip(1).subrange(
                i - 1,
                i - 1 + needle.len(),
            ));
        }
    }
}

/// Split `s` at the first occurrence of `needle`: the part before it and
/// the part after it. When `needle` does not occur the whole of `s` is the
/// first part and the second is empty.
pub open spec fn split_by_spec(s: Seq<u8>, needle: Seq<u8>) -> (Seq<u8>, Seq<u8>) {
    let r = find_sub(s, needle);
    if r < 0 {
        (s, Seq::empty())
    } else {
        (s.take(r), s.skip(r + needle.len()))
    }
}

/// Whether `needle` occurs in `v` at index `i`.
fn matches_at(v: &[u8], needle: &[u8], i: usize) -> (r: bool)
    requires
        i + needle@.len() <= v@.len(),
    ensures
        r == match_at(v@, needle@, i as int),
{
    let mut k: usize = 0;
    let mut m: usize = i;
    while k < needle.len()
        invariant
            k <= needle.len(),
            m == i + k,
            i + needle@.len() <= v@.len(),
            forall|j: int| 0 <= j < k ==> v@[i + j] == needle@[j],
        decreases needle.len() - k,
    {
        if v[m] != needle[k] {
            proof {
                assert(v@.subrange(i as int, i + needle@.len())[k as int] == v@[i + k]);
            }
            return false;
        }
        k = k + 1;
        m = m + 1;
    }
    proof {
        assert(v@.subrange(i as int, i + needle@.len()) =~= needle@);
    }
    true
}

/// Error parsing a single row of a mount table; holds the message.
#[derive(Debug)]
pub struct ParseRowError(pub String);

/// The text of the error produced when a field is missing altogether.
pub open spec fn missing_field_text() -> Seq<char> {
    "Expected more fields"@
}

/// The text of the error produced when an integer field cannot be read:
/// the offending field, quoted, and the reason.
pub open spec fn int_error_text(field: Seq<u8>, why: Seq<char>) -> Seq<char> {
    "Cannot parse integer "@ + quoted_text_spec(field) + ": "@ + why
}

/// An ASCII decimal digit.
pub open spec fn is_digit(c: u8) -> bool {
    DIGIT_0 <= c && c <= DIGIT_9
}

/// The digits of an integer field: the whole field, or what follows one
/// tolerated leading `+`.
pub open spec fn int_field_digits(s: Seq<u8>) -> Seq<u8> {
    if s.len() > 0 && s[0] == PLUS {
        s.skip(1)
    } else {
        s
    }
}

/// Whether every byte of `s` is a decimal digit.
pub open spec fn all_digits(s: Seq<u8>) -> bool {
    forall|i: int| 0 <= i < s.len() ==> is_digit(s[i])
}

/// A well-formed unsigned decimal integer: at least one digit, nothing but
/// digits, after one optional leading `+`.
pub open spec fn int_format_ok(s: Seq<u8>) -> bool {
    int_field_digits(s).len() > 0 && all_digits(int_field_digits(s))
}

/// The value of a string of decimal digits, most significant first.
pub open spec fn decimal_value(s: Seq<u8>) -> int
    decreases s.len(),
{
    if s.len() == 0 {
        0
    } else {
        decimal_value(s.take(s.len() - 1)) * 10 + (s[s.len() - 1] - DIGIT_0)
    }
}

/// The value of a digit string is never negative.
proof fn lemma_decimal_value_nonneg(s: Seq<u8>)
    requires
        all_digits(s),
    ensures
        decimal_value(s) >= 0,
    decreases s.len(),
{
    if s.len() > 0 {
        assert(all_digits(s.take(s.len() - 1)));
        lemma_decimal_value_nonneg(s.take(s.len() - 1));
    }
}

/// The value of a digit string is at least the value of any of its
/// prefixes.
proof fn lemma_decimal_value_prefix(s: Seq<u8>, i: int)
    requires
        all_digits(s),
        0 <= i <= s.len(),
    ensures
        decimal_value(s.take(i)) <= decimal_value(s),
    decreases s.len() - i,
{
    if i < s.len() {
        lemma_decimal_value_prefix(s, i + 1);
        let t = s.take(i + 1);
        assert(t.take(t.len() - 1) =~= s.take(i));
        assert(all_digits(s.take(i)));
        lemma_decimal_value_nonneg(s.take(i));
        assert(decimal_value(t) == decimal_value(s.take(i)) * 10 + (s[i] - DIGIT_0));
    } else {
        assert(s.take(i) =~= s);
    }
}

/// How an integer field fails to parse.
enum IntError {
    /// The field is empty.
    Empty,
    /// The field holds something besides digits after an optional `+`.
    Invalid,
    /// The value does not fit the integer width.
    Overflow,
}

/// Read an unsigned decimal integer, an optional leading `+` tolerated,
/// from the whole of `field`.
fn parse_u64(field: &[u8]) -> (r: Result<u64, IntError>)
    ensures
        match r {
            Ok(v) => int_format_ok(field@) && decimal_value(int_field_digits(field@)) == v,
            Err(IntError::Empty) => field@.len() == 0,
            Err(IntError::Invalid) => field@.len() > 0 && !int_format_ok(field@),
            Err(IntError::Overflow) => int_format_ok(field@) && decimal_value(
                int_field_digits(field@),
            ) > u64::MAX,
        },
{
    if field.len() == 0 {
        return Err(IntError::Empty);
    }
    let start: usize = if field[0] == PLUS {
        1
    } else {
        0
    };
    let ghost digits = int_field_digits(field@);
    proof {
        assert(digits =~= field@.subrange(start as int, field@.len() as int));
    }
    if start == field.len() {
        return Err(IntError::Invalid);
    }
    let mut i: usize = start;
    while i < field.len()
        invariant
            start <= i <= field@.len(),
            digits == int_field_digits(field@),
            digits == field@.subrange(start as int, field@.len() as int),
            forall|j: int| start <= j < i ==> is_digit(field@[j]),
        decreases field.len() - i,
    {
        if !(field[i] >= DIGIT_0 && field[i] <= DIGIT_9) {
            proof {
                assert(digits[i - start] == field@[i as int]);
                assert(!is_digit(digits[i - start]));
                assert(!all_digits(digits));
            }
            return Err(IntError::Invalid);
        }
        i = i + 1;
    }
    proof {
        assert forall|j: int| 0 <= j < digits.len() implies is_digit(digits[j]) by {
            assert(digits[j] == field@[j + start]);
        }
        assert(int_format_ok(field@));
    }
    let mut acc: u64 = 0;
    let mut i: usize = start;
    proof {
        assert(field@.subrange(start as int, start as int) =~= Seq::<u8>::empty());
    }
    while i < field.len()
        invariant
            start <= i <= field@.len(),
            start < field@.len(),
            digits == int_field_digits(field@),
            digits == field@.subrange(start as int, field@.len() as int),
            all_digits(digits),
            int_format_ok(field@),
            forall|j: int| start <= j < field@.len() ==> is_digit(field@[j]),
            acc == decimal_value(field@.subrange(start as int, i as int)),
        decreases field.len() - i,
    {
        let d: u64 = (field[i] - DIGIT_0) as u64;
        let ghost pre = field@.subrange(start as int, i as int);
        let ghost ext = field@.subrange(start as int, i as int + 1);
        proof {
            assert(ext.take(ext.len() - 1) =~= pre);
            assert(ext[ext.len() - 1] == field@[i as int]);
            assert(decimal_value(ext) == acc * 10 + d);
        }
        let step = match acc.checked_mul(10) {
            Some(m) => m.checked_add(d),
            None => None,
        };
        match step {
            Some(v) => {
                acc = v;
                i = i + 1;
            },
            None => {
                proof {
                    assert(decimal_value(ext) > u64::MAX);
                    assert(digits.take(i - start + 1) =~= ext);
                    lemma_decimal_value_prefix(digits, i - start + 1);
                    assert(decimal_value(digits) > u64::MAX);
                }
                return Err(IntError::Overflow);
            },
        }
    }
    proof {
        assert(field@.subrange(start as int, i as int) =~= digits);
    }
    Ok(acc)
}

/// One parsed mount-table record, as mathematical values: integers and
/// byte strings.
pub struct MountPointView {
    pub mount_id: u64,
    pub parent_id: u64,
    pub major: u64,
    pub minor: u64,
    pub root: Seq<u8>,
    pub mount_point: Seq<u8>,
    pub mount_options: Seq<u8>,
    pub optional_fields: Seq<u8>,
    pub fstype: Seq<u8>,
    pub mount_source: Seq<u8>,
    pub super_options: Seq<u8>,
}

/// A single entry of a mount table. Paths and option lists are byte
/// strings, already unescaped; they may hold arbitrary non-text bytes.
#[derive(Debug)]
pub struct MountPoint {
    pub mount_id: u64,
    pub parent_id: u64,
    pub major: u64,
    pub minor: u64,
    pub root: Vec<u8>,
    pub mount_point: Vec<u8>,
    pub mount_options: Vec<u8>,
    pub optional_fields: Vec<u8>,
    pub fstype: Vec<u8>,
    pub mount_source: Vec<u8>,
    pub super_options: Vec<u8>,
}

impl View for MountPoint {
    type V = MountPointView;

    open spec fn view(&self) -> MountPointView {
        MountPointView {
            mount_id: self.mount_id,
            parent_id: self.parent_id,
            major: self.major,
            minor: self.minor,
            root: self.root@,
            mount_point: self.mount_point@,
            mount_options: self.mount_options@,
            optional_fields: self.optional_fields@,
            fstype: self.fstype@,
            mount_source: self.mount_source@,
            super_options: self.super_options@,
        }
    }
}

/// The ways a row can be rejected.
pub enum RowError {
    /// The row ended before all eleven fields were read.
    MissingFields,
    /// An integer field was empty.
    EmptyInt,
    /// An integer field held something besides digits.
    InvalidInt(Seq<u8>),
    /// An integer field overflowed the integer width.
    OverflowInt(Seq<u8>),
}

/// The message carried by the error for each way a row can be rejected.
pub open spec fn row_error_text(e: RowError) -> Seq<char> {
    match e {
        RowError::MissingFields => missing_field_text(),
        RowError::EmptyInt => int_error_text(
            Seq::empty(),
            "cannot parse integer from empty string"@,
        ),
        RowError::InvalidInt(f) => int_error_text(f, "invalid digit found in string"@),
        RowError::OverflowInt(f) => int_error_text(f, "number too large to fit in target type"@),
    }
}

/// What parsing one row yields: nothing (blank or comment line), a record,
/// or an error.
pub enum RowOutcome {
    /// The line is blank or a comment and yields no record.
    Skip,
    /// The line parsed into a record.
    Record(MountPointView),
    /// The line is malformed.
    Bad(RowError),
}

/// Take one field off the front of `data`: strip leading spaces, then
/// split at the delimiter. `None` means `data` was exhausted before this
/// field.
pub open spec fn parse_field_spec(data: Seq<u8>, delim: Seq<u8>) -> Option<(Seq<u8>, Seq<u8>)> {
    if data.len() == 0 {
        None
    } else {
        Some(split_by_spec(lstrip_spaces_spec(data), delim))
    }
}

/// Take one field off the front of `data`, delimited by `delimit`.
pub fn parse_field<'a>(data: &'a [u8], delimit: &[u8]) -> (r: Result<
    (&'a [u8], &'a [u8]),
    ParseRowError,
>)
    ensures
        match parse_field_spec(data@, delimit@) {
            Option::None => r matches Err(e) && e.0@ == missing_field_text(),
            Option::Some(p) => r matches Ok(q) && q.0@ == p.0 && q.1@ == p.1,
        },
{
    if data.len() == 0 {
        return Err(ParseRowError(String::from_str("Expected more fields")));
    }
    let d = lstrip_whitespaces(data);
    Ok(split_by(d, delimit))
}

/// What reading an integer field yields.
pub enum IntFieldOutcome {
    /// The field was missing, empty, malformed or too large.
    Fail(RowError),
    /// The value and the rest of the row.
    Parsed(u64, Seq<u8>),
}

/// Read one space-delimited unsigned decimal field off the front of
/// `data`.
pub open spec fn int_field_spec(data: Seq<u8>) -> IntFieldOutcome {
    match parse_field_spec(data, seq![SPACE]) {
        Option::None => IntFieldOutcome::Fail(RowError::MissingFields),
        Option::Some(p) => {
            let field = p.0;
            let tail = p.1;
            if field.len() == 0 {
                IntFieldOutcome::Fail(RowError::EmptyInt)
            } else if !int_format_ok(field) {
                IntFieldOutcome::Fail(RowError::InvalidInt(field))
            } else if decimal_value(int_field_digits(field)) > u64::MAX {
                IntFieldOutcome::Fail(RowError::OverflowInt(field))
            } else {
                IntFieldOutcome::Parsed(decimal_value(int_field_digits(field)) as u64, tail)
            }
        },
    }
}

/// Build the message for a bad integer field.
fn int_error_msg(field: &[u8], why: &str) -> (r: String)
    ensures
        r@ == int_error_text(field@, why@),
{
    let mut m = String::from_str("Cannot parse integer ");
    let q = quoted_text(field);
    m.append(q.as_str());
    m.append(": ");
    m.append(why);
    proof {
        assert(m@ =~= int_error_text(field@, why@));
    }
    m
}

/// Read one space-delimited unsigned decimal field off the front of
/// `data`; on failure the message quotes the field.
pub fn parse_int<'a>(data: &'a [u8]) -> (r: Result<(u64, &'a [u8]), ParseRowError>)
    ensures
        match int_field_spec(data@) {
            IntFieldOutcome::Fail(e) => r matches Err(pe) && pe.0@ == row_error_text(e),
            IntFieldOutcome::Parsed(v, tail) => r matches Ok(p) && p.0 == v && p.1@ == tail,
        },
{
    let sp: Vec<u8> = vec![SPACE];
    proof {
        assert(sp@ =~= seq![SPACE]);
    }
    let (field, tail) = match parse_field(data, sp.as_slice()) {
        Ok(p) => p,
        Err(e) => {
            return Err(e);
        },
    };
    match parse_u64(field) {
        Ok(v) => Ok((v, tail)),
        Err(IntError::Empty) => {
            proof {
                assert(field@ =~= Seq::<u8>::empty());
            }
            Err(ParseRowError(int_error_msg(field, "cannot parse integer from empty string")))
        },
        Err(IntError::Invalid) => Err(
            ParseRowError(int_error_msg(field, "invalid digit found in string")),
        ),
        Err(IntError::Overflow) => Err(
            ParseRowError(int_error_msg(field, "number too large to fit in target type")),
        ),
    }
}

/// Read one space-delimited path-like field off the front of `data` and
/// decode its octal escapes.
pub open spec fn path_field_spec(data: Seq<u8>) -> Option<(Seq<u8>, Seq<u8>)> {
    match parse_field_spec(data, seq![SPACE]) {
        Option::None => None,
        Option::Some(p) => Some((unescape_octals_spec(p.0), p.1)),
    }
}

/// Read one space-delimited path-like field off the front of `data`,
/// octal escapes decoded.
pub fn parse_path_field<'a>(data: &'a [u8]) -> (r: Result<(Vec<u8>, &'a [u8]), ParseRowError>)
    ensures
        match path_field_spec(data@) {
            Option::None => r matches Err(e) && e.0@ == missing_field_text(),
            Option::Some(p) => r matches Ok(q) && q.0@ == p.0 && q.1@ == p.1,
        },
{
    let sp: Vec<u8> = vec![SPACE];
    proof {
        assert(sp@ =~= seq![SPACE]);
    }
    match parse_field(data, sp.as_slice()) {
        Ok(p) => Ok((unescape_octals(p.0), p.1)),
        Err(e) => Err(e),
    }
}

/// Read the optional-field section: everything up to the lone `-` token
/// that closes it, trailing spaces stripped, octal escapes decoded. When
/// no such token occurs the rest of the row is consumed.
pub open spec fn optional_field_spec(data: Seq<u8>) -> Option<(Seq<u8>, Seq<u8>)> {
    match parse_field_spec(data, seq![DASH, SPACE]) {
        Option::None => None,
        Option::Some(p) => Some((unescape_octals_spec(rstrip_spaces_spec(p.0)), p.1)),
    }
}

/// Read the optional-field section off the front of `data`.
pub fn parse_optional<'a>(data: &'a [u8]) -> (r: Result<(Vec<u8>, &'a [u8]), ParseRowError>)
    ensures
        match optional_field_spec(data@) {
            Option::None => r matches Err(e) && e.0@ == missing_field_text(),
            Option::Some(p) => r matches Ok(q) && q.0@ == p.0 && q.1@ == p.1,
        },
{
    let dl: Vec<u8> = vec![DASH, SPACE];
    proof {
        assert(dl@ =~= seq![DASH, SPACE]);
    }
    match parse_field(data, dl.as_slice()) {
        Ok(p) => Ok((unescape_octals(rstrip_whitespaces(p.0)), p.1)),
        Err(e) => Err(e),
    }
}

/// What reading the `major:minor` device field yields.
pub enum MajorMinorOutcome {
    /// A part was missing, empty, malformed or too large.
    Fail(RowError),
    /// Major and minor numbers and the rest of the row.
    Parsed(u64, u64, Seq<u8>),
}

/// Read the `major:minor` device field off the front of `data`: one token
/// split at the embedded colon, each part an unsigned decimal integer.
pub open spec fn major_minor_spec(data: Seq<u8>) -> MajorMinorOutcome {
    match parse_field_spec(data, seq![COLON]) {
        Option::None => MajorMinorOutcome::Fail(RowError::MissingFields),
        Option::Some(p1) => match parse_field_spec(p1.1, seq![SPACE]) {
            Option::None => MajorMinorOutcome::Fail(RowError::MissingFields),
            Option::Some(p2) => match int_field_spec(p1.0) {
                IntFieldOutcome::Fail(e) => MajorMinorOutcome::Fail(e),
                IntFieldOutcome::Parsed(major, _) => match int_field_spec(p2.0) {
                    IntFieldOutcome::Fail(e) => MajorMinorOutcome::Fail(e),
                    IntFieldOutcome::Parsed(minor, _) => MajorMinorOutcome::Parsed(
                        major,
                        minor,
                        p2.1,
                    ),
                },
            },
        },
    }
}

/// Read the `major:minor` device field off the front of `data`.
pub fn parse_major_minor<'a>(data: &'a [u8]) -> (r: Result<(u64, u64, &'a [u8]), ParseRowError>)
    ensures
        match major_minor_spec(data@) {
            MajorMinorOutcome::Fail(e) => r matches Err(pe) && pe.0@ == row_error_text(e),
            MajorMinorOutcome::Parsed(major, minor, tail) => r matches Ok(p) && p.0 == major
                && p.1 == minor && p.2@ == tail,
        },
{
    let co: Vec<u8> = vec![COLON];
    let sp: Vec<u8> = vec![SPACE];
    proof {
        assert(co@ =~= seq![COLON]);
        assert(sp@ =~= seq![SPACE]);
    }
    let (major_field, data) = match parse_field(data, co.as_slice()) {
        Ok(p) => p,
        Err(e) => {
            return Err(e);
        },
    };
    let (minor_field, tail) = match parse_field(data, sp.as_slice()) {
        Ok(p) => p,
        Err(e) => {
            return Err(e);
        },
    };
    let (major, _) = match parse_int(major_field) {
        Ok(p) => p,
        Err(e) => {
            return Err(e);
        },
    };
    let (minor, _) = match parse_int(minor_field) {
        Ok(p) => p,
        Err(e) => {
            return Err(e);
        },
    };
    Ok((major, minor, tail))
}

/// Error parsing a mount table: the message, the 1-based number of the
/// offending row, and the row's text (lossily decoded; the raw bytes stand
/// in the message's quoted field).
#[derive(Debug)]
pub struct ParseError {
    pub msg: String,
    pub row_num: usize,
    pub row: String,
}

impl ParseError {
    /// Wrap a message with the row it arose on.
    pub fn new(msg: String, row_num: usize, row: String) -> (r: ParseError)
        ensures
            r.msg == msg,
            r.row_num == row_num,
            r.row == row,
    {
        ParseError { msg, row_num, row }
    }

    /// The whole error on one line pair: the 1-based row number and the
    /// message, then the offending row's text.
    pub fn to_text(&self) -> (r: String)
        ensures
            r@ == "Parse error at line "@ + crate::text::dec_text_spec(self.row_num as nat)
                + ": "@ + self.msg@ + "\n"@ + self.row@,
    {
        let mut s = String::from_str("Parse error at line ");
        let n = crate::text::decimal_string(self.row_num as u64);
        s.append(n.as_str());
        s.append(": ");
        s.append(self.msg.as_str());
        s.append("\n");
        s.append(self.row.as_str());
        proof {
            assert(s@ =~= "Parse error at line "@ + crate::text::dec_text_spec(
                self.row_num as nat,
            ) + ": "@ + self.msg@ + "\n"@ + self.row@);
        }
        s
    }
}

/// What one row of a mount table means: a carriage return is first
/// stripped; a blank or comment line yields nothing; otherwise the row
/// must hold all eleven fields, integer fields must parse, and path-like
/// fields have their octal escapes decoded.
pub open spec fn parse_row_spec(row: Seq<u8>) -> RowOutcome {
    let r = rstrip_cr_spec(row);
    if is_comment_line_spec(r) {
        RowOutcome::Skip
    } else {
        match int_field_spec(r) {
            IntFieldOutcome::Fail(e) => RowOutcome::Bad(e),
            IntFieldOutcome::Parsed(mount_id, r1) => match int_field_spec(r1) {
                IntFieldOutcome::Fail(e) => RowOutcome::Bad(e),
                IntFieldOutcome::Parsed(parent_id, r2) => match major_minor_spec(r2) {
                    MajorMinorOutcome::Fail(e) => RowOutcome::Bad(e),
                    MajorMinorOutcome::Parsed(major, minor, r3) => match path_field_spec(r3) {
                        Option::None => RowOutcome::Bad(RowError::MissingFields),
                        Option::Some(root_p) => match path_field_spec(root_p.1) {
                            Option::None => RowOutcome::Bad(RowError::MissingFields),
                            Option::Some(mp_p) => match path_field_spec(mp_p.1) {
                                Option::None => RowOutcome::Bad(RowError::MissingFields),
                                Option::Some(opts_p) => match optional_field_spec(opts_p.1) {
                                    Option::None => RowOutcome::Bad(RowError::MissingFields),
                                    Option::Some(optf_p) => match path_field_spec(optf_p.1) {
                                        Option::None => RowOutcome::Bad(RowError::MissingFields),
                                        Option::Some(fst_p) => match path_field_spec(fst_p.1) {
                                            Option::None => RowOutcome::Bad(
                                                RowError::MissingFields,
                                            ),
                                            Option::Some(src_p) => match path_field_spec(
                                                src_p.1,
                                            ) {
                                                Option::None => RowOutcome::Bad(
                                                    RowError::MissingFields,
                                                ),
                                                Option::Some(sup_p) => RowOutcome::Record(
                                                    MountPointView {
                                                        mount_id,
                                                        parent_id,
                                                        major,
                                                        minor,
                                                        root: root_p.0,
                                                        mount_point: mp_p.0,
                                                        mount_options: opts_p.0,
                                                        optional_fields: optf_p.0,
                                                        fstype: fst_p.0,
                                                        mount_source: src_p.0,
                                                        super_options: sup_p.0,
                                                    },
                                                ),
                                            },
                                        },
                                    },
                                },
                            },
                        },
                    },
                },
            },
        }
    }
}

/// Parse one row of a mount table. A blank or comment line yields
/// `Ok(None)`; a malformed line yields the error with its message, and
/// does not panic, whatever bytes the row holds.
pub fn parse_mount_point(row: &[u8]) -> (r: Result<Option<MountPoint>, ParseRowError>)
    ensures
        match parse_row_spec(row@) {
            RowOutcome::Skip => r matches Ok(None),
            RowOutcome::Record(v) => r matches Ok(Some(mp)) && mp@ == v,
            RowOutcome::Bad(e) => r matches Err(pe) && pe.0@ == row_error_text(e),
        },
{
    let row = rstrip_cr(row);
    if is_comment_line(row) {
        return Ok(None);
    }
    let (mount_id, row) = match parse_int(row) {
        Ok(p) => p,
        Err(e) => {
            return Err(e);
        },
    };
    let (parent_id, row) = match parse_int(row) {
        Ok(p) => p,
        Err(e) => {
            return Err(e);
        },
    };
    let (major, minor, row) = match parse_major_minor(row) {
        Ok(p) => p,
        Err(e) => {
            return Err(e);
        },
    };
    let (root, row) = match parse_path_field(row) {
        Ok(p) => p,
        Err(e) => {
            return Err(e);
        },
    };
    let (mount_point, row) = match parse_path_field(row) {
        Ok(p) => p,
        Err(e) => {
            return Err(e);
        },
    };
    let (mount_options, row) = match parse_path_field(row) {
        Ok(p) => p,
        Err(e) => {
            return Err(e);
        },
    };
    let (optional_fields, row) = match parse_optional(row) {
        Ok(p) => p,
        Err(e) => {
            return Err(e);
        },
    };
    let (fstype, row) = match parse_path_field(row) {
        Ok(p) => p,
        Err(e) => {
            return Err(e);
        },
    };
    let (mount_source, row) = match parse_path_field(row) {
        Ok(p) => p,
        Err(e) => {
            return Err(e);
        },
    };
    let (super_options, _) = match parse_path_field(row) {
        Ok(p) => p,
        Err(e) => {
            return Err(e);
        },
    };
    Ok(
        Some(
            MountPoint {
                mount_id,
                parent_id,
                major,
                minor,
                root,
                mount_point,
                mount_options,
                optional_fields,
                fstype,
                mount_source,
                super_options,
            },
        ),
    )
}

/// What one call of `Parser::next` yields and leaves behind when it
/// produces an item.
pub struct ParserStep {
    /// The parse of the producing row: a record or an error, never a skip.
    pub outcome: RowOutcome,
    /// The raw bytes of the producing row, carriage return included.
    pub row: Seq<u8>,
    /// The 1-based number of the producing row.
    pub row_num: int,
    /// What is left of the buffer.
    pub rest: Seq<u8>,
    /// Whether the buffer's last row, unterminated by a newline, was
    /// consumed.
    pub exhausted: bool,
}

/// Advance over the buffer: split the next row off at a newline (the last
/// row needs none), skip blank and comment rows, and stop at the first row
/// that yields a record or an error, or at the buffer's end.
pub open spec fn parser_next_spec(data: Seq<u8>, row_num: int) -> Option<ParserStep>
    decreases data.len(),
    via parser_next_spec_decreases
{
    let ix = find_byte(data, NEWLINE);
    if ix >= 0 {
        let row = data.take(ix);
        let rest = data.skip(ix + 1);
        let o = parse_row_spec(row);
        match o {
            RowOutcome::Skip => parser_next_spec(rest, row_num + 1),
            _ => Some(
                ParserStep { outcome: o, row, row_num: row_num + 1, rest, exhausted: false },
            ),
        }
    } else {
        let o = parse_row_spec(data);
        match o {
            RowOutcome::Skip => None,
            _ => Some(
                ParserStep {
                    outcome: o,
                    row: data,
                    row_num: row_num + 1,
                    rest: Seq::empty(),
                    exhausted: true,
                },
            ),
        }
    }
}

#[via_fn]
proof fn parser_next_spec_decreases(data: Seq<u8>, row_num: int) {
    lemma_find_byte(data, NEWLINE);
}

/// A parser over the byte content of a whole mount-table snapshot: a
/// single forward pass producing one record or error per non-blank,
/// non-comment row.
pub struct Parser<'a> {
    /// What is left of the buffer.
    pub data: &'a [u8],
    /// How many rows have been consumed.
    pub row_num: usize,
    /// Whether the final, newline-less row was consumed.
    pub exhausted: bool,
}

impl<'a> Parser<'a> {
    /// The row counter cannot outgrow its integer: each consumed row eats
    /// at least its newline byte.
    pub open spec fn wf(&self) -> bool {
        self.row_num + self.data@.len() <= usize::MAX
    }

    /// A parser over `data`, the whole content of a mount-table snapshot.
    pub fn new(data: &'a [u8]) -> (r: Parser<'a>)
        ensures
            r.data@ == data@,
            r.row_num == 0,
            !r.exhausted,
            r.wf(),
    {
        let n = data.len();
        proof {
            assert(data@.len() == n);
        }
        Parser { data, row_num: 0, exhausted: false }
    }

    /// The next record or row error, or `None` once the buffer is
    /// consumed. Errors carry the 1-based row number and the row's text;
    /// one malformed row does not end the pass.
    pub fn next(&mut self) -> (r: Option<Result<MountPoint, ParseError>>)
        requires
            old(self).wf(),
        ensures
            final(self).wf(),
            old(self).exhausted ==> r is None && *final(self) == *old(self),
            !old(self).exhausted ==> match parser_next_spec(
                old(self).data@,
                old(self).row_num as int,
            ) {
                Option::None => r is None && final(self).exhausted,
                Option::Some(step) => {
                    &&& final(self).data@ == step.rest
                    &&& final(self).row_num == step.row_num
                    &&& final(self).exhausted == step.exhausted
                    &&& match step.outcome {
                        RowOutcome::Record(v) => r matches Some(Ok(mp)) && mp@ == v,
                        RowOutcome::Bad(e) => r matches Some(Err(pe)) && pe.msg@
                            == row_error_text(e) && pe.row_num == step.row_num && pe.row@
                            == lossy_utf8_of(step.row),
                        RowOutcome::Skip => false,
                    }
                },
            },
    {
        if self.exhausted {
            return None;
        }
        loop
            invariant
                self.wf(),
                !self.exhausted,
                !old(self).exhausted,
                parser_next_spec(self.data@, self.row_num as int) == parser_next_spec(
                    old(self).data@,
                    old(self).row_num as int,
                ),
            decreases self.data@.len(),
        {
            let d: &'a [u8] = self.data;
            let nl = find_byte_exec(d, NEWLINE);
            proof {
                lemma_find_byte(d@, NEWLINE);
            }
            match nl {
                Some(ix) => {
                    let row = &d[0..ix];
                    self.data = &d[ix + 1..d.len()];
                    self.row_num = self.row_num + 1;
                    match parse_mount_point(row) {
                        Ok(None) => {},
                        Ok(Some(v)) => {
                            return Some(Ok(v));
                        },
                        Err(e) => {
                            let text = lossy_string(row);
                            return Some(Err(ParseError::new(e.0, self.row_num, text)));
                        },
                    }
                },
                None => {
                    self.exhausted = true;
                    self.data = &d[d.len()..d.len()];
                    match parse_mount_point(d) {
                        Ok(None) => {
                            return None;
                        },
                        Ok(Some(v)) => {
                            proof {
                                assert(d@.len() > 0);
                            }
                            self.row_num = self.row_num + 1;
                            return Some(Ok(v));
                        },
                        Err(e) => {
                            proof {
                                assert(d@.len() > 0);
                            }
                            self.row_num = self.row_num + 1;
                            let text = lossy_string(d);
                            return Some(Err(ParseError::new(e.0, self.row_num, text)));
                        },
                    }
                },
            }
        }
    }
}

/// The index of the first occurrence of `c`, if it occurs.
fn find_byte_exec(v: &[u8], c: u8) -> (r: Option<usize>)
    ensures
        match r {
            Some(i) => find_byte(v@, c) == i,
            None => find_byte(v@, c) == -1,
        },
{
    proof {
        lemma_find_byte(v@, c);
    }
    let mut i: usize = 0;
    while i < v.len()
        invariant
            i <= v.len(),
            forall|j: int| 0 <= j < i ==> v@[j] != c,
        decreases v.len() - i,
    {
        if v[i] == c {
            proof {
                lemma_find_byte(v@, c);
            }
            return Some(i);
        }
        i = i + 1;
    }
    proof {
        lemma_find_byte(v@, c);
    }
    None
}

/// Split `v` at the first occurrence of `needle`, which is consumed; when
/// `needle` does not occur, the second part is empty.
pub fn split_by<'a>(v: &'a [u8], needle: &[u8]) -> (r: (&'a [u8], &'a [u8]))
    ensures
        (r.0@, r.1@) == split_by_spec(v@, needle@),
{
    proof {
        lemma_find_sub(v@, needle@);
    }
    if needle.len() > v.len() {
        return (v, &v[0..0]);
    }
    if needle.len() == 0 {
        proof {
            assert(v@.subrange(0, 0) =~= needle@);
            assert(v@.take(0) =~= Seq::<u8>::empty());
            assert(v@.skip(0) =~= v@);
        }
        return (&v[0..0], v);
    }
    let mut i: usize = 0;
    while i <= v.len() - needle.len()
        invariant
            0 < needle@.len() <= v@.len(),
            i <= v@.len() - needle@.len() + 1,
            forall|j: int| 0 <= j < i ==> !match_at(v@, needle@, j),
        decreases v.len() - i,
    {
        if matches_at(v, needle, i) {
            proof {
                lemma_find_sub(v@, needle@);
                assert(find_sub(v@, needle@) == i);
            }
            return (&v[0..i], &v[i + needle.len()..v.len()]);
        }
        i = i + 1;
    }
    proof {
        lemma_find_sub(v@, needle@);
        assert forall|j: int| !match_at(v@, needle@, j) by {
            if 0 <= j && j + needle@.len() <= v@.len() {
                assert(j < i);
            }
        }
        assert(find_sub(v@, needle@) == -1);
    }
    (v, &v[0..0])
}

} // verus!
