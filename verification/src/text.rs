//! Byte-level text utilities for the model-description formats: splitting a
//! document into lines, a line into whitespace-separated fields, a field into
//! slash-separated parts, and validating numeric tokens.

use vstd::prelude::*;

verus! {

pub const LINE_FEED: u8 = 10;
pub const CARRIAGE_RETURN: u8 = 13;
pub const SPACE: u8 = 32;
pub const TAB: u8 = 9;
pub const HASH_SIGN: u8 = 35;
pub const SLASH: u8 = 47;
pub const MINUS_SIGN: u8 = 45;
pub const PLUS_SIGN: u8 = 43;
pub const DECIMAL_POINT: u8 = 46;
pub const DIGIT_ZERO: u8 = 48;
pub const DIGIT_NINE: u8 = 57;

/// The pieces of `s` around each occurrence of `sep`, in order.
///
/// There is always at least one (possibly empty) piece; `n` separators yield
/// exactly `n + 1` pieces, so a trailing separator yields a trailing empty
/// piece and adjacent separators yield empty pieces between them.
pub open spec fn spec_split(s: Seq<u8>, sep: u8) -> Seq<Seq<u8>>
    decreases s.len(),
{
    if s.len() == 0 {
        seq![Seq::<u8>::empty()]
    } else if s.last() == sep {
        spec_split(s.drop_last(), sep).push(Seq::<u8>::empty())
    } else {
        let p = spec_split(s.drop_last(), sep);
        p.update(p.len() - 1, p.last().push(s.last()))
    }
}

/// The lines of a document: its pieces around line feeds.
pub open spec fn spec_lines(s: Seq<u8>) -> Seq<Seq<u8>> {
    spec_split(s, LINE_FEED)
}

proof fn lemma_push_update_last<T>(a: Seq<T>, x: T, y: T)
    ensures
        a.push(x).update(a.len() as int, y) =~= a.push(y),
{
}

/// Walking a sequence from the front: dropping the first element of the
/// suffix from `i` leaves the suffix from `i + 1`.
pub proof fn lemma_skip_step<T>(s: Seq<T>, i: int)
    requires
        0 <= i < s.len(),
    ensures
        s.skip(i).len() == s.len() - i,
        s.skip(i)[0] == s[i],
        s.skip(i).drop_first() =~= s.skip(i + 1),
{
}

proof fn lemma_take_step<T>(s: Seq<T>, i: int)
    requires
        0 <= i < s.len(),
    ensures
        s.take(i + 1).drop_last() =~= s.take(i),
        s.take(i + 1).last() == s[i],
{
}

/// Splits `s` at each occurrence of `sep`, exactly as `spec_split` describes.
pub fn split(s: &[u8], sep: u8) -> (r: Vec<Vec<u8>>)
    ensures
        r.deep_view() == spec_split(s@, sep),
{
    let mut done: Vec<Vec<u8>> = Vec::new();
    let mut cur: Vec<u8> = Vec::new();
    let n = s.len();
    assert(s@.take(0) =~= Seq::<u8>::empty());
    for i in 0..n
        invariant
            n == s@.len(),
            done.deep_view().push(cur@) == spec_split(s@.take(i as int), sep),
    {
        let ghost pre_done = done.deep_view();
        let ghost pre_cur = cur@;
        proof {
            lemma_take_step(s@, i as int);
        }
        if s[i] == sep {
            done.push(cur);
            cur = Vec::new();
            proof {
                assert(done.deep_view() =~~= pre_done.push(pre_cur));
                assert(done.deep_view().push(cur@) =~~= spec_split(s@.take(i + 1), sep));
            }
        } else {
            cur.push(s[i]);
            proof {
                lemma_push_update_last(pre_done, pre_cur, cur@);
                assert(done.deep_view().push(cur@) =~~= spec_split(s@.take(i + 1), sep));
            }
        }
    }
    assert(s@.take(n as int) =~= s@);
    let ghost pre_done = done.deep_view();
    let ghost pre_cur = cur@;
    done.push(cur);
    assert(done.deep_view() =~~= pre_done.push(pre_cur));
    done
}

/// True of the bytes that separate fields within a line: space, horizontal
/// tab, and carriage return (so that lines ending in a carriage return and
/// line feed need no separate treatment).
pub open spec fn is_field_sep(b: u8) -> bool {
    b == SPACE || b == TAB || b == CARRIAGE_RETURN
}

/// Like `spec_split` on field separators, except that an empty piece is never
/// started next to another: only the last piece can be empty.
pub open spec fn spec_fields_raw(s: Seq<u8>) -> Seq<Seq<u8>>
    decreases s.len(),
{
    if s.len() == 0 {
        seq![Seq::<u8>::empty()]
    } else if is_field_sep(s.last()) {
        let p = spec_fields_raw(s.drop_last());
        if p.last().len() == 0 {
            p
        } else {
            p.push(Seq::<u8>::empty())
        }
    } else {
        let p = spec_fields_raw(s.drop_last());
        p.update(p.len() - 1, p.last().push(s.last()))
    }
}

/// The whitespace-separated fields of a line, in order, each nonempty:
/// runs of separators collapse, and leading or trailing separators add
/// no field.
pub open spec fn spec_fields(s: Seq<u8>) -> Seq<Seq<u8>> {
    let p = spec_fields_raw(s);
    if p.last().len() == 0 {
        p.drop_last()
    } else {
        p
    }
}

proof fn lemma_fields_raw_props(s: Seq<u8>)
    ensures
        spec_fields_raw(s).len() >= 1,
        forall|i: int|
            0 <= i < spec_fields_raw(s).len() - 1 ==> #[trigger] spec_fields_raw(s)[i].len() > 0,
    decreases s.len(),
{
    if s.len() > 0 {
        lemma_fields_raw_props(s.drop_last());
    }
}

/// Every field of a line is nonempty: separators only ever end a field.
pub proof fn lemma_fields_nonempty(s: Seq<u8>)
    ensures
        forall|i: int| 0 <= i < spec_fields(s).len() ==> #[trigger] spec_fields(s)[i].len() > 0,
{
    lemma_fields_raw_props(s);
}

/// Splits a line into its whitespace-separated fields, exactly as
/// `spec_fields` describes.
pub fn split_fields(s: &[u8]) -> (r: Vec<Vec<u8>>)
    ensures
        r.deep_view() == spec_fields(s@),
{
    let mut done: Vec<Vec<u8>> = Vec::new();
    let mut cur: Vec<u8> = Vec::new();
    let n = s.len();
    assert(s@.take(0) =~= Seq::<u8>::empty());
    for i in 0..n
        invariant
            n == s@.len(),
            done.deep_view().push(cur@) == spec_fields_raw(s@.take(i as int)),
    {
        let ghost pre_done = done.deep_view();
        let ghost pre_cur = cur@;
        proof {
            lemma_take_step(s@, i as int);
        }
        let b = s[i];
        if b == SPACE || b == TAB || b == CARRIAGE_RETURN {
            if cur.len() > 0 {
                done.push(cur);
                cur = Vec::new();
                proof {
                    assert(done.deep_view() =~~= pre_done.push(pre_cur));
                    assert(done.deep_view().push(cur@) =~~= spec_fields_raw(s@.take(i + 1)));
                }
            } else {
                assert(done.deep_view().push(cur@) =~~= spec_fields_raw(s@.take(i + 1)));
            }
        } else {
            cur.push(b);
            proof {
                lemma_push_update_last(pre_done, pre_cur, cur@);
                assert(done.deep_view().push(cur@) =~~= spec_fields_raw(s@.take(i + 1)));
            }
        }
    }
    assert(s@.take(n as int) =~= s@);
    if cur.len() > 0 {
        let ghost pre_done = done.deep_view();
        let ghost pre_cur = cur@;
        done.push(cur);
        proof {
            assert(done.deep_view() =~~= pre_done.push(pre_cur));
            assert(done.deep_view() =~~= spec_fields(s@));
        }
    } else {
        assert(done.deep_view() =~~= spec_fields(s@));
    }
    done
}

pub open spec fn is_digit(b: u8) -> bool {
    DIGIT_ZERO <= b <= DIGIT_NINE
}

/// True when `s` is entirely decimal digits.
pub open spec fn all_digits(s: Seq<u8>) -> bool
    decreases s.len(),
{
    s.len() == 0 || (all_digits(s.drop_last()) && is_digit(s.last()))
}

/// The natural number written by the digit string `s` (most significant
/// digit first), meaningful when `all_digits(s)` holds.
pub open spec fn spec_nat_of_digits(s: Seq<u8>) -> nat
    decreases s.len(),
{
    if s.len() == 0 {
        0
    } else {
        (spec_nat_of_digits(s.drop_last()) * 10 + (s.last() - DIGIT_ZERO)) as nat
    }
}

proof fn lemma_nat_of_digits_prefix(s: Seq<u8>, i: int)
    requires
        0 <= i <= s.len(),
        all_digits(s),
    ensures
        spec_nat_of_digits(s.take(i)) <= spec_nat_of_digits(s),
    decreases s.len(),
{
    if i < s.len() {
        assert(s.drop_last().take(i) =~= s.take(i));
        lemma_nat_of_digits_prefix(s.drop_last(), i);
    } else {
        assert(s.take(i) =~= s);
    }
}

/// Reads a nonempty all-digit token as a number. Returns `None` exactly when
/// the token is empty, holds a non-digit, or writes a value above
/// `usize::MAX`.
pub fn parse_digits(t: &[u8]) -> (r: Option<usize>)
    ensures
        r is Some <==> t@.len() > 0 && all_digits(t@) && spec_nat_of_digits(t@) <= usize::MAX,
        r matches Some(v) ==> v == spec_nat_of_digits(t@),
{
    let n = t.len();
    if n == 0 {
        return None;
    }
    let mut val: usize = 0;
    assert(t@.take(0) =~= Seq::<u8>::empty());
    for i in 0..n
        invariant
            n == t@.len(),
            all_digits(t@.take(i as int)),
            val == spec_nat_of_digits(t@.take(i as int)),
    {
        proof {
            lemma_take_step(t@, i as int);
        }
        let b = t[i];
        if b < DIGIT_ZERO || b > DIGIT_NINE {
            proof {
                assert(!all_digits(t@.take(i + 1)));
                lemma_not_all_digits_extends(t@, i + 1, n as int);
                assert(t@.take(n as int) =~= t@);
            }
            return None;
        }
        let step = match val.checked_mul(10) {
            Some(m) => m.checked_add((b - DIGIT_ZERO) as usize),
            None => None,
        };
        match step {
            Some(v) => {
                val = v;
            },
            None => {
                proof {
                    assert(spec_nat_of_digits(t@.take(i + 1)) > usize::MAX);
                    if all_digits(t@) {
                        lemma_nat_of_digits_prefix(t@, i + 1);
                    }
                }
                return None;
            },
        }
    }
    assert(t@.take(n as int) =~= t@);
    Some(val)
}

proof fn lemma_not_all_digits_extends(s: Seq<u8>, i: int, j: int)
    requires
        0 <= i <= j <= s.len(),
        !all_digits(s.take(i)),
    ensures
        !all_digits(s.take(j)),
    decreases j - i,
{
    if i < j {
        assert(s.take(i + 1).drop_last() =~= s.take(i));
        lemma_not_all_digits_extends(s, i + 1, j);
    }
}

/// True when `s` is entirely digits or decimal points.
pub open spec fn all_digits_or_points(s: Seq<u8>) -> bool
    decreases s.len(),
{
    s.len() == 0 || (all_digits_or_points(s.drop_last()) && (is_digit(s.last()) || s.last()
        == DECIMAL_POINT))
}

/// How many decimal points `s` holds.
pub open spec fn count_points(s: Seq<u8>) -> nat
    decreases s.len(),
{
    if s.len() == 0 {
        0
    } else {
        count_points(s.drop_last()) + if s.last() == DECIMAL_POINT {
            1nat
        } else {
            0nat
        }
    }
}

/// True when `s` holds at least one digit.
pub open spec fn has_digit(s: Seq<u8>) -> bool
    decreases s.len(),
{
    s.len() > 0 && (has_digit(s.drop_last()) || is_digit(s.last()))
}

/// A decimal number token: an optional sign, then digits with at most one
/// decimal point among them and at least one digit. This is the only
/// spelling of coordinates the model formats accept here; exponents are
/// rejected.
pub open spec fn is_number_token(s: Seq<u8>) -> bool {
    let body = if s.len() > 0 && (s[0] == MINUS_SIGN || s[0] == PLUS_SIGN) {
        s.drop_first()
    } else {
        s
    };
    all_digits_or_points(body) && count_points(body) <= 1 && has_digit(body)
}

/// Decides `is_number_token`.
pub fn check_number(t: &[u8]) -> (r: bool)
    ensures
        r == is_number_token(t@),
{
    let n = t.len();
    let start: usize = if n > 0 && (t[0] == MINUS_SIGN || t[0] == PLUS_SIGN) {
        1
    } else {
        0
    };
    let ghost body = if t@.len() > 0 && (t@[0] == MINUS_SIGN || t@[0] == PLUS_SIGN) {
        t@.drop_first()
    } else {
        t@
    };
    assert(body =~= t@.subrange(start as int, n as int));
    let mut points: usize = 0;
    let mut seen_digit = false;
    assert(body.take(0) =~= Seq::<u8>::empty());
    for i in start..n
        invariant
            n == t@.len(),
            start <= i <= n,
            body == t@.subrange(start as int, n as int),
            is_number_token(t@) == (all_digits_or_points(body) && count_points(body) <= 1
                && has_digit(body)),
            all_digits_or_points(body.take(i - start)),
            points == count_points(body.take(i - start)),
            seen_digit == has_digit(body.take(i - start)),
            points <= i,
    {
        proof {
            lemma_take_step(body, i - start);
            assert(body[i - start] == t@[i as int]);
        }
        let b = t[i];
        if b == DECIMAL_POINT {
            points = points + 1;
        } else if b >= DIGIT_ZERO && b <= DIGIT_NINE {
            seen_digit = true;
        } else {
            proof {
                assert(!all_digits_or_points(body.take(i - start + 1)));
                lemma_not_all_digits_or_points_extends(body, i - start + 1, body.len() as int);
                assert(body.take(body.len() as int) =~= body);
                assert(!all_digits_or_points(body));
                assert(!is_number_token(t@));
            }
            return false;
        }
        assert(body.take(i - start + 1).drop_last() =~= body.take(i - start));
    }
    assert(body.take(body.len() as int) =~= body);
    points <= 1 && seen_digit
}

proof fn lemma_not_all_digits_or_points_extends(s: Seq<u8>, i: int, j: int)
    requires
        0 <= i <= j <= s.len(),
        !all_digits_or_points(s.take(i)),
    ensures
        !all_digits_or_points(s.take(j)),
    decreases j - i,
{
    if i < j {
        assert(s.take(i + 1).drop_last() =~= s.take(i));
        lemma_not_all_digits_or_points_extends(s, i + 1, j);
    }
}

/// Compares two byte strings for equality.
pub fn bytes_eq(a: &[u8], b: &[u8]) -> (r: bool)
    ensures
        r == (a@ == b@),
{
    if a.len() != b.len() {
        assert(a@ != b@);
        return false;
    }
    let n = a.len();
    for i in 0..n
        invariant
            n == a@.len() == b@.len(),
            forall|j: int| 0 <= j < i ==> a@[j] == b@[j],
    {
        if a[i] != b[i] {
            assert(a@ != b@);
            return false;
        }
    }
    assert(a@ =~= b@);
    true
}

} // verus!
