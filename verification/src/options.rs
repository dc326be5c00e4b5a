//! The option-string compiler.
//!
//! The engine reads its configuration at process start from a single
//! NUL-terminated string of `key=value:` entries, discovered through a
//! fixed symbol. This module validates a list of `key = value` pairs —
//! each value a boolean token or a numeric literal, possibly negative —
//! and emits that exact byte string. Validation happens before the engine
//! can ever see the string, and a list that fails it produces an error with
//! a descriptive message instead of a string.
//!
//! The builder may only be attached to the program's entry point, because
//! the emitted symbol is a process-wide startup hook the engine consults
//! exactly once; attaching it anywhere else is refused.

use vstd::prelude::*;

verus! {

/// The `=` between a key and its value.
pub const EQUALS: u8 = 61;

/// The `:` delimiter that ends every entry, the last one included.
pub const COLON: u8 = 58;

/// The `-` sign of a negative numeric value.
pub const MINUS: u8 = 45;

/// The `.` of a decimal numeric value.
pub const DOT: u8 = 46;

/// The single terminator of the whole options string.
pub const NUL: u8 = 0;

pub open spec fn is_digit(b: u8) -> bool {
    48 <= b <= 57
}

pub open spec fn is_ident_start(b: u8) -> bool {
    (97 <= b <= 122) || (65 <= b <= 90) || b == 95
}

pub open spec fn is_ident_continue(b: u8) -> bool {
    is_ident_start(b) || is_digit(b)
}

/// An option key: an identifier, as in `release_to_os_interval_ms`.
pub open spec fn is_identifier(s: Seq<u8>) -> bool {
    &&& s.len() > 0
    &&& is_ident_start(s[0])
    &&& forall|i: int| 0 <= i < s.len() ==> is_ident_continue(s[i])
}

pub open spec fn all_digits(s: Seq<u8>) -> bool {
    forall|i: int| 0 <= i < s.len() ==> is_digit(s[i])
}

/// One or more decimal digits.
pub open spec fn is_digit_run(s: Seq<u8>) -> bool {
    s.len() > 0 && all_digits(s)
}

/// A numeric literal without sign: a digit run, optionally split once by a
/// dot with digits on both sides (`1`, `3.14`; not `3.`, `.5` or `3.14x`).
pub open spec fn is_unsigned_numeric(s: Seq<u8>) -> bool {
    is_digit_run(s) || exists|i: int|
        1 <= i < s.len() - 1 && s[i] == DOT && is_digit_run(s.take(i)) && is_digit_run(
            s.skip(i + 1),
        )
}

/// A numeric literal, optionally prefixed with a unary minus. The minus
/// must stand immediately before the literal: a bare `-` is no value.
pub open spec fn is_numeric(s: Seq<u8>) -> bool {
    if s.len() > 0 && s[0] == MINUS {
        is_unsigned_numeric(s.skip(1))
    } else {
        is_unsigned_numeric(s)
    }
}

/// The token `true`.
pub open spec fn true_token() -> Seq<u8> {
    seq![116u8, 114u8, 117u8, 101u8]
}

/// The token `false`.
pub open spec fn false_token() -> Seq<u8> {
    seq![102u8, 97u8, 108u8, 115u8, 101u8]
}

pub open spec fn is_bool_token(s: Seq<u8>) -> bool {
    s == true_token() || s == false_token()
}

/// What an option value may be: `true`, `false`, or a numeric literal with
/// an optional unary minus. Every other token shape is refused.
pub open spec fn is_option_value(s: Seq<u8>) -> bool {
    is_bool_token(s) || is_numeric(s)
}

fn is_digit_byte(b: u8) -> (r: bool)
    ensures
        r == is_digit(b),
{
    48 <= b && b <= 57
}

fn is_ident_start_byte(b: u8) -> (r: bool)
    ensures
        r == is_ident_start(b),
{
    (97 <= b && b <= 122) || (65 <= b && b <= 90) || b == 95
}

/// The first index at or after `from` whose byte is not a digit.
fn scan_digits(v: &Vec<u8>, from: usize) -> (end: usize)
    requires
        from <= v.len(),
    ensures
        from <= end <= v.len(),
        forall|k: int| from <= k < end ==> is_digit(v@[k]),
        end < v.len() ==> !is_digit(v@[end as int]),
    decreases v.len() - from,
{
    let mut end: usize = from;
    while end < v.len() && 48 <= v[end] && v[end] <= 57
        invariant
            from <= end <= v.len(),
            forall|k: int| from <= k < end ==> is_digit(v@[k]),
        decreases v.len() - end,
    {
        end = end + 1;
    }
    end
}

/// Whether the bytes of `v` from `from` on form an unsigned numeric literal.
fn is_unsigned_numeric_from(v: &Vec<u8>, from: usize) -> (r: bool)
    requires
        from <= v.len(),
    ensures
        r == is_unsigned_numeric(v@.skip(from as int)),
{
    let ghost s = v@.skip(from as int);
    let len = v.len();
    let d1 = scan_digits(v, from);
    if d1 == from {
        // No leading digit: neither a digit run nor `digits.digits`.
        proof {
            if from < len {
                assert(!is_digit(s[0]));
            }
            assert forall|i: int|
                !(1 <= i < s.len() - 1 && s[i] == DOT && is_digit_run(s.take(i)) && is_digit_run(
                    s.skip(i + 1),
                )) by {
                if 1 <= i < s.len() - 1 && is_digit_run(s.take(i)) {
                    assert(s.take(i)[0] == s[0]);
                }
            }
        }
        return false;
    }
    if d1 == len {
        proof {
            assert forall|i: int| 0 <= i < s.len() implies is_digit(s[i]) by {
                assert(s[i] == v@[from + i]);
            }
        }
        return true;
    }
    let ghost j0 = d1 - from as int;
    if v[d1] != DOT {
        // A byte that is neither digit nor dot can stand in no decomposition.
        proof {
            lemma_no_decomposition_at(s, j0);
        }
        return false;
    }
    let d2 = scan_digits(v, d1 + 1);
    if d2 == d1 + 1 || d2 < len {
        // An empty fraction, or a trailing byte after it: the dot at `j0`
        // cannot carry a decomposition, and no other index holds a dot with
        // digits on both sides.
        proof {
            let bad: int = if d2 == d1 + 1 {
                j0 + 1
            } else {
                d2 - from as int
            };
            assert(j0 < bad <= s.len());
            assert(bad < s.len() ==> !is_digit(s[bad]));
            assert(s[j0] == DOT && !is_digit(s[j0]));
            assert forall|i: int|
                !(1 <= i < s.len() - 1 && s[i] == DOT && is_digit_run(s.take(i)) && is_digit_run(
                    s.skip(i + 1),
                )) by {
                if 1 <= i < s.len() - 1 && s[i] == DOT && is_digit_run(s.take(i)) && is_digit_run(
                    s.skip(i + 1),
                ) {
                    if i < j0 {
                        assert(is_digit(s[i]));
                    } else if i > j0 {
                        assert(s.take(i)[j0] == s[j0]);
                    } else {
                        assert(bad < s.len());
                        assert(s.skip(i + 1)[bad - i - 1] == s[bad]);
                    }
                }
            }
            assert(!is_digit_run(s));
        }
        return false;
    }
    // digits, one dot, digits to the end: a decimal numeric literal.
    proof {
        assert(s[j0] == DOT);
        assert(1 <= j0 < s.len() - 1);
        assert(is_digit_run(s.take(j0))) by {
            assert forall|k: int| 0 <= k < j0 implies is_digit(s.take(j0)[k]) by {
                assert(s.take(j0)[k] == v@[from + k]);
            }
        }
        assert(is_digit_run(s.skip(j0 + 1))) by {
            assert(s.skip(j0 + 1).len() > 0);
            assert forall|k: int| 0 <= k < s.skip(j0 + 1).len() implies is_digit(
                #[trigger] s.skip(j0 + 1)[k],
            ) by {
                assert(s.skip(j0 + 1)[k] == v@[d1 + 1 + k]);
            }
        }
    }
    true
}

/// In a sequence of digits up to `j0`, a non-digit, non-dot byte at `j0`
/// rules every decomposition out.
proof fn lemma_no_decomposition_at(s: Seq<u8>, j0: int)
    requires
        0 <= j0 < s.len(),
        forall|k: int| 0 <= k < j0 ==> is_digit(s[k]),
        !is_digit(s[j0]),
        s[j0] != DOT,
    ensures
        !is_unsigned_numeric(s),
{
    assert(!is_digit_run(s));
    assert forall|i: int|
        !(1 <= i < s.len() - 1 && s[i] == DOT && is_digit_run(s.take(i)) && is_digit_run(
            s.skip(i + 1),
        )) by {
        if 1 <= i < s.len() - 1 && s[i] == DOT && is_digit_run(s.take(i)) && is_digit_run(
            s.skip(i + 1),
        ) {
            if i < j0 {
                assert(is_digit(s[i]));
            } else if i > j0 {
                assert(s.take(i)[j0] == s[j0]);
            } else {
                assert(s[i] == DOT);
            }
        }
    }
}

/// Whether `v` is the token `true`.
fn is_true_token(v: &Vec<u8>) -> (r: bool)
    ensures
        r == (v@ == true_token()),
{
    if v.len() == 4 && v[0] == 116 && v[1] == 114 && v[2] == 117 && v[3]
        == 101 {
        proof {
            assert(v@ =~= true_token());
        }
        true
    } else {
        false
    }
}

/// Whether `v` is the token `false`.
fn is_false_token(v: &Vec<u8>) -> (r: bool)
    ensures
        r == (v@ == false_token()),
{
    if v.len() == 5 && v[0] == 102 && v[1] == 97 && v[2] == 108 && v[3]
        == 115 && v[4] == 101 {
        proof {
            assert(v@ =~= false_token());
        }
        true
    } else {
        false
    }
}

/// Whether `v` is a valid option value: `true`, `false`, or a numeric
/// literal with an optional unary minus.
pub fn is_valid_value(v: &Vec<u8>) -> (r: bool)
    ensures
        r == is_option_value(v@),
{
    if is_true_token(v) || is_false_token(v) {
        return true;
    }
    if v.len() > 0 && v[0] == MINUS {
        is_unsigned_numeric_from(v, 1)
    } else {
        proof {
            assert(v@.skip(0) =~= v@);
        }
        is_unsigned_numeric_from(v, 0)
    }
}

/// One `key = value` entry of the configuration list, in the order given;
/// repeated keys are kept as repeated entries, never merged.
pub struct OptionEntry {
    pub key: Vec<u8>,
    pub value: Vec<u8>,
}

impl View for OptionEntry {
    type V = (Seq<u8>, Seq<u8>);

    open spec fn view(&self) -> (Seq<u8>, Seq<u8>) {
        (self.key@, self.value@)
    }
}

impl OptionEntry {
    /// A valid entry: an identifier key and a boolean or numeric value.
    pub open spec fn wf(self) -> bool {
        pair_valid(self@)
    }
}

pub open spec fn pair_valid(p: (Seq<u8>, Seq<u8>)) -> bool {
    is_identifier(p.0) && is_option_value(p.1)
}

/// Why a configuration list was refused. Every refusal happens at build
/// time, before any string exists for the engine to read.
#[derive(Clone, Copy, PartialEq, Eq, Structural, Debug)]
pub enum OptionsError {
    /// An entry's key is not an identifier.
    InvalidKey,
    /// An entry's value is neither `true`, `false` nor a numeric literal.
    InvalidValue,
    /// The builder was attached to a function other than the program's
    /// entry point.
    NotEntryPoint,
}

impl OptionsError {
    /// The diagnostic the build failure carries.
    pub fn message(&self) -> (m: &'static str)
        ensures
            *self == OptionsError::InvalidKey ==> m@ == "Expect a valid option name"@,
            *self == OptionsError::InvalidValue ==> m@
                == "Expect a valid value like '3.14' or 'true'"@,
            *self == OptionsError::NotEntryPoint ==> m@
                == "This macro is only allowed to be used on the main method"@,
    {
        match self {
            OptionsError::InvalidKey => "Expect a valid option name",
            OptionsError::InvalidValue => "Expect a valid value like '3.14' or 'true'",
            OptionsError::NotEntryPoint => "This macro is only allowed to be used on the main method",
        }
    }
}

/// The bytes one entry contributes: its key, `=`, its value, and the
/// trailing `:` delimiter.
pub open spec fn entry_bytes(p: (Seq<u8>, Seq<u8>)) -> Seq<u8> {
    p.0 + seq![EQUALS] + p.1 + seq![COLON]
}

/// The concatenation of every entry's bytes, in the order given.
pub open spec fn serialize_entries(ps: Seq<(Seq<u8>, Seq<u8>)>) -> Seq<u8>
    decreases ps.len(),
{
    if ps.len() == 0 {
        Seq::empty()
    } else {
        serialize_entries(ps.drop_last()) + entry_bytes(ps.last())
    }
}

/// The whole options string: every entry serialized, then one single NUL.
pub open spec fn options_string_bytes(ps: Seq<(Seq<u8>, Seq<u8>)>) -> Seq<u8> {
    serialize_entries(ps) + seq![NUL]
}

/// Law: each entry contributes its bytes independently, in the order
/// given — no deduplication and no merging across keys, so a repeated key
/// appears as a repeated entry.
pub proof fn lemma_serialize_entries_append(ps: Seq<(Seq<u8>, Seq<u8>)>, qs: Seq<(Seq<u8>, Seq<u8>)>)
    ensures
        serialize_entries(ps + qs) == serialize_entries(ps) + serialize_entries(qs),
    decreases qs.len(),
{
    if qs.len() == 0 {
        assert(ps + qs =~= ps);
        assert(serialize_entries(ps) + serialize_entries(qs) =~= serialize_entries(ps));
    } else {
        lemma_serialize_entries_append(ps, qs.drop_last());
        assert((ps + qs).drop_last() =~= ps + qs.drop_last());
        assert((ps + qs).last() == qs.last());
        assert(serialize_entries(ps) + serialize_entries(qs.drop_last()) + entry_bytes(qs.last())
            =~= serialize_entries(ps) + serialize_entries(qs));
    }
}

/// Whether `v` is a valid option key: an identifier.
pub fn is_valid_key(v: &Vec<u8>) -> (r: bool)
    ensures
        r == is_identifier(v@),
{
    if v.len() == 0 {
        return false;
    }
    if !is_ident_start_byte(v[0]) {
        return false;
    }
    let mut i: usize = 0;
    while i < v.len()
        invariant
            i <= v.len(),
            forall|k: int| 0 <= k < i ==> is_ident_continue(v@[k]),
        decreases v.len() - i,
    {
        let b = v[i];
        if !(is_ident_start_byte(b) || is_digit_byte(b)) {
            return false;
        }
        i = i + 1;
    }
    true
}

/// Validates one `key = value` pair into an entry. The pair is kept as
/// given; an invalid key or value is refused here, at build time.
pub fn parse_entry(key: Vec<u8>, value: Vec<u8>) -> (r: Result<OptionEntry, OptionsError>)
    ensures
        r is Ok <==> pair_valid((key@, value@)),
        r matches Ok(e) ==> e@ == (key@, value@),
        !is_identifier(key@) ==> r == Err::<OptionEntry, OptionsError>(OptionsError::InvalidKey),
        is_identifier(key@) && !is_option_value(value@) ==> r == Err::<OptionEntry, OptionsError>(
            OptionsError::InvalidValue,
        ),
{
    if !is_valid_key(&key) {
        return Err(OptionsError::InvalidKey);
    }
    if !is_valid_value(&value) {
        return Err(OptionsError::InvalidValue);
    }
    Ok(OptionEntry { key, value })
}

fn push_bytes(out: &mut Vec<u8>, bytes: &Vec<u8>)
    ensures
        final(out)@ == old(out)@ + bytes@,
{
    let mut j: usize = 0;
    while j < bytes.len()
        invariant
            j <= bytes.len(),
            out@ == old(out)@ + bytes@.take(j as int),
        decreases bytes.len() - j,
    {
        proof {
            assert(bytes@.take(j + 1) =~= bytes@.take(j as int).push(bytes@[j as int]));
        }
        out.push(bytes[j]);
        j = j + 1;
    }
    proof {
        assert(bytes@.take(bytes@.len() as int) =~= bytes@);
    }
}

/// Serializes the entries, in order, into the exact byte string the engine
/// parses: `key=value:` for each entry — the last one delimited too — and
/// one single NUL terminator at the end of the whole string.
pub fn build_options_string(entries: &Vec<OptionEntry>) -> (out: Vec<u8>)
    ensures
        out@ == options_string_bytes(entries@.map_values(|e: OptionEntry| e@)),
        out@.len() >= 1,
        out@.last() == NUL,
{
    let ghost vs = entries@.map_values(|e: OptionEntry| e@);
    let mut out: Vec<u8> = Vec::new();
    let mut i: usize = 0;
    while i < entries.len()
        invariant
            i <= entries.len(),
            vs == entries@.map_values(|e: OptionEntry| e@),
            out@ == serialize_entries(vs.take(i as int)),
        decreases entries.len() - i,
    {
        proof {
            assert(vs.take(i + 1).drop_last() =~= vs.take(i as int));
            assert(vs.take(i + 1).last() == entries@[i as int]@);
        }
        push_bytes(&mut out, &entries[i].key);
        out.push(EQUALS);
        push_bytes(&mut out, &entries[i].value);
        out.push(COLON);
        proof {
            assert(out@ =~= serialize_entries(vs.take(i as int)) + entry_bytes(
                entries@[i as int]@,
            ));
        }
        i = i + 1;
    }
    out.push(NUL);
    proof {
        assert(vs.take(vs.len() as int) =~= vs);
    }
    out
}

/// The program's designated entry point, the only function the option
/// builder may be attached to.
pub open spec fn entry_point_name() -> Seq<u8> {
    seq![109u8, 97u8, 105u8, 110u8]
}

/// Whether `name` is the entry point's name, `main`.
pub fn is_entry_point(name: &Vec<u8>) -> (r: bool)
    ensures
        r == (name@ == entry_point_name()),
{
    if name.len() == 4 && name[0] == 109 && name[1] == 97 && name[2] == 105 && name[3] == 110 {
        proof {
            assert(name@ =~= entry_point_name());
        }
        true
    } else {
        false
    }
}

/// The outcome of validating a pair list, first refusal first.
pub open spec fn validate_pairs(ps: Seq<(Seq<u8>, Seq<u8>)>) -> Result<(), OptionsError>
    decreases ps.len(),
{
    if ps.len() == 0 {
        Ok(())
    } else if !is_identifier(ps[0].0) {
        Err(OptionsError::InvalidKey)
    } else if !is_option_value(ps[0].1) {
        Err(OptionsError::InvalidValue)
    } else {
        validate_pairs(ps.drop_first())
    }
}

proof fn lemma_validate_pairs_all_valid(ps: Seq<(Seq<u8>, Seq<u8>)>)
    requires
        forall|k: int| 0 <= k < ps.len() ==> pair_valid(ps[k]),
    ensures
        validate_pairs(ps) is Ok,
    decreases ps.len(),
{
    if ps.len() > 0 {
        lemma_validate_pairs_all_valid(ps.drop_first());
    }
}

proof fn lemma_validate_pairs_first_error(ps: Seq<(Seq<u8>, Seq<u8>)>, i: int)
    requires
        0 <= i < ps.len(),
        forall|k: int| 0 <= k < i ==> pair_valid(ps[k]),
        !pair_valid(ps[i]),
    ensures
        validate_pairs(ps) == if !is_identifier(ps[i].0) {
            Err::<(), OptionsError>(OptionsError::InvalidKey)
        } else {
            Err::<(), OptionsError>(OptionsError::InvalidValue)
        },
    decreases i,
{
    if i > 0 {
        lemma_validate_pairs_first_error(ps.drop_first(), i - 1);
    }
}

/// The whole build-time pipeline: refuse any attachment point other than
/// the entry point, validate every pair in order, and on success emit the
/// exact options string. No string at all is produced on a refusal.
pub fn compile_options(target_fn: &Vec<u8>, pairs: Vec<OptionEntry>) -> (r: Result<
    Vec<u8>,
    OptionsError,
>)
    ensures
        r is Ok <==> target_fn@ == entry_point_name() && validate_pairs(
            pairs@.map_values(|e: OptionEntry| e@),
        ) is Ok,
        r matches Ok(out) ==> out@ == options_string_bytes(
            pairs@.map_values(|e: OptionEntry| e@),
        ),
        target_fn@ != entry_point_name() ==> r == Err::<Vec<u8>, OptionsError>(
            OptionsError::NotEntryPoint,
        ),
        match validate_pairs(pairs@.map_values(|e: OptionEntry| e@)) {
            Ok(_) => true,
            Err(e) => target_fn@ == entry_point_name() ==> r == Err::<Vec<u8>, OptionsError>(e),
        },
{
    let ghost vs = pairs@.map_values(|e: OptionEntry| e@);
    if !is_entry_point(target_fn) {
        return Err(OptionsError::NotEntryPoint);
    }
    let mut i: usize = 0;
    while i < pairs.len()
        invariant
            i <= pairs.len(),
            target_fn@ == entry_point_name(),
            vs == pairs@.map_values(|e: OptionEntry| e@),
            forall|k: int| 0 <= k < i ==> pair_valid(vs[k]),
        decreases pairs.len() - i,
    {
        if !is_valid_key(&pairs[i].key) {
            proof {
                lemma_validate_pairs_first_error(vs, i as int);
            }
            return Err(OptionsError::InvalidKey);
        }
        if !is_valid_value(&pairs[i].value) {
            proof {
                lemma_validate_pairs_first_error(vs, i as int);
            }
            return Err(OptionsError::InvalidValue);
        }
        i = i + 1;
    }
    proof {
        lemma_validate_pairs_all_valid(vs);
    }
    Ok(build_options_string(&pairs))
}

/// Every byte of a valid value is a sign, a dot, a digit or a letter of a
/// boolean token — never a NUL.
proof fn lemma_value_bytes_nonzero(s: Seq<u8>)
    requires
        is_option_value(s),
    ensures
        forall|j: int| 0 <= j < s.len() ==> s[j] != NUL,
{
    if is_bool_token(s) {
    } else if s.len() > 0 && s[0] == MINUS && !is_unsigned_numeric(s) {
        lemma_unsigned_bytes_nonzero(s.skip(1));
        assert forall|j: int| 0 <= j < s.len() implies s[j] != NUL by {
            if j > 0 {
                assert(s.skip(1)[j - 1] == s[j]);
            }
        }
    } else {
        lemma_unsigned_bytes_nonzero(s);
    }
}

proof fn lemma_unsigned_bytes_nonzero(s: Seq<u8>)
    requires
        is_unsigned_numeric(s),
    ensures
        forall|j: int| 0 <= j < s.len() ==> s[j] != NUL,
{
    if is_digit_run(s) {
    } else {
        let i = choose|i: int|
            1 <= i < s.len() - 1 && s[i] == DOT && is_digit_run(s.take(i)) && is_digit_run(
                s.skip(i + 1),
            );
        assert forall|j: int| 0 <= j < s.len() implies s[j] != NUL by {
            if j < i {
                assert(s.take(i)[j] == s[j]);
            } else if j > i {
                assert(s.skip(i + 1)[j - i - 1] == s[j]);
            }
        }
    }
}

/// Law: in the options string built from well-formed entries, the one NUL
/// byte is the final terminator — no entry contributes another, so the
/// engine's parser sees every entry.
pub proof fn lemma_single_nul_terminator(ps: Seq<(Seq<u8>, Seq<u8>)>)
    requires
        forall|k: int| 0 <= k < ps.len() ==> pair_valid(ps[k]),
    ensures
        options_string_bytes(ps).last() == NUL,
        forall|j: int|
            0 <= j < options_string_bytes(ps).len() - 1 ==> options_string_bytes(ps)[j] != NUL,
    decreases ps.len(),
{
    if ps.len() == 0 {
    } else {
        lemma_single_nul_terminator(ps.drop_last());
        let prefix = serialize_entries(ps.drop_last());
        let e = entry_bytes(ps.last());
        assert(serialize_entries(ps) == prefix + e);
        lemma_value_bytes_nonzero(ps.last().1);
        assert forall|j: int| 0 <= j < (prefix + e).len() implies (prefix + e)[j] != NUL by {
            if j < prefix.len() {
                assert(options_string_bytes(ps.drop_last())[j] == prefix[j]);
            } else {
                let k = j - prefix.len();
                assert(e[k] != NUL) by {
                    let key = ps.last().0;
                    let value = ps.last().1;
                    if k < key.len() {
                        assert(e[k] == key[k]);
                    } else if k == key.len() {
                        assert(e[k] == EQUALS);
                    } else if k < key.len() + 1 + value.len() {
                        assert(e[k] == value[k - key.len() - 1]);
                    } else {
                        assert(e[k] == COLON);
                    }
                }
            }
        }
    }
}

/// The fixed, engine-recognized symbol under which the built string is
/// exposed: the engine's startup path looks this name up and calls it to
/// obtain the string's address.
pub fn default_options_symbol() -> (s: &'static str)
    ensures
        s@ == "__scudo_default_options"@,
{
    "__scudo_default_options"
}

} // verus!
