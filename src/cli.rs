//! Reading the timer's duration from the command line.
//!
//! A time specification is `SS`, `MM:SS` or `HH:MM:SS`, each field a
//! non-empty run of decimal digits; the total must fit in a `u32`.

use vstd::prelude::*;

verus! {

/// Seconds the timer runs for when no usable duration is given.
pub const DEFAULT_DURATION_SECS: u32 = 600;

pub open spec fn is_digit(c: char) -> bool {
    '0' <= c && c <= '9'
}

/// A decimal numeral: at least one digit and nothing else.
pub open spec fn is_numeral(s: Seq<char>) -> bool {
    s.len() > 0 && forall|k: int| 0 <= k < s.len() ==> is_digit(#[trigger] s[k])
}

/// The value of a run of decimal digits, most significant digit first.
pub open spec fn digits_value(s: Seq<char>) -> int
    decreases s.len(),
{
    if s.len() == 0 {
        0
    } else {
        10 * digits_value(s.drop_last()) + (s.last() as int - '0' as int)
    }
}

/// The pieces of `s` between colons: `n` colons give `n + 1` pieces, some
/// of which may be empty.
pub open spec fn colon_fields(s: Seq<char>) -> Seq<Seq<char>>
    decreases s.len(),
{
    if s.len() == 0 {
        seq![Seq::<char>::empty()]
    } else {
        let f = colon_fields(s.drop_last());
        if s.last() == ':' {
            f.push(Seq::<char>::empty())
        } else {
            f.update(f.len() - 1, f.last().push(s.last()))
        }
    }
}

/// Seconds denoted by the fields of a well-formed specification.
pub open spec fn fields_total(f: Seq<Seq<char>>) -> int {
    if f.len() == 1 {
        digits_value(f[0])
    } else if f.len() == 2 {
        60 * digits_value(f[0]) + digits_value(f[1])
    } else {
        3600 * digits_value(f[0]) + 60 * digits_value(f[1]) + digits_value(f[2])
    }
}

/// One, two or three fields, each a decimal numeral.
pub open spec fn fields_well_formed(f: Seq<Seq<char>>) -> bool {
    1 <= f.len() <= 3 && forall|j: int| 0 <= j < f.len() ==> is_numeral(#[trigger] f[j])
}

/// The seconds that a time specification stands for, or `None` where it is
/// malformed or its total exceeds `u32::MAX`.
pub open spec fn time_spec_seconds(s: Seq<char>) -> Option<u32> {
    let f = colon_fields(s);
    if fields_well_formed(f) && fields_total(f) <= u32::MAX {
        Some(fields_total(f) as u32)
    } else {
        None
    }
}

proof fn lemma_colon_fields_len(s: Seq<char>)
    ensures
        colon_fields(s).len() >= 1,
    decreases s.len(),
{
    if s.len() > 0 {
        lemma_colon_fields_len(s.drop_last());
    }
}

/// How the fields of a prefix sit inside the fields of the whole text: all
/// but the last are kept, and the last is the start of the matching field.
proof fn lemma_colon_fields_prefix(s: Seq<char>, i: int)
    requires
        0 <= i <= s.len(),
    ensures
        ({
            let p = colon_fields(s.take(i));
            let f = colon_fields(s);
            &&& 1 <= p.len() <= f.len()
            &&& forall|j: int| 0 <= j < p.len() - 1 ==> #[trigger] f[j] == p[j]
            &&& p.last().len() <= f[p.len() - 1].len()
            &&& f[p.len() - 1].take(p.last().len() as int) == p.last()
        }),
    decreases s.len() - i,
{
    lemma_colon_fields_len(s.take(i));
    if i == s.len() {
        assert(s.take(i) == s);
    } else {
        lemma_colon_fields_prefix(s, i + 1);
        let q = s.take(i + 1);
        assert(q.drop_last() == s.take(i));
        let p = colon_fields(s.take(i));
        let pq = colon_fields(q);
        let f = colon_fields(s);
        if q.last() == ':' {
            assert(pq == p.push(Seq::<char>::empty()));
            assert(pq[p.len() - 1] == p.last());
            assert(f[p.len() - 1] == p.last());
            assert(f[p.len() - 1].take(p.last().len() as int) == p.last());
        } else {
            let last = p.last().push(q.last());
            assert(pq == p.update(p.len() - 1, last));
            assert(pq.last() == last);
            let g = f[p.len() - 1];
            assert(g.take(last.len() as int) == last);
            assert(g.take(p.last().len() as int) == last.take(p.last().len() as int));
            assert(last.take(p.last().len() as int) == p.last());
        }
    }
}

proof fn lemma_digits_value_push(s: Seq<char>, c: char)
    ensures
        digits_value(s.push(c)) == 10 * digits_value(s) + (c as int - '0' as int),
{
    assert(s.push(c).drop_last() == s);
}

/// A run of digits is worth at least as much as any of its starts, and
/// never less than zero.
proof fn lemma_digits_value_prefix(t: Seq<char>, k: int)
    requires
        0 <= k <= t.len(),
        forall|m: int| 0 <= m < t.len() ==> is_digit(#[trigger] t[m]),
    ensures
        0 <= digits_value(t.take(k)) <= digits_value(t),
    decreases t.len(),
{
    if t.len() > 0 {
        let u = t.drop_last();
        assert forall|m: int| 0 <= m < u.len() implies is_digit(#[trigger] u[m]) by {
            assert(u[m] == t[m]);
        }
        lemma_digits_value_prefix(u, u.len() as int);
        assert(u.take(u.len() as int) == u);
        if k < t.len() {
            lemma_digits_value_prefix(u, k);
            assert(u.take(k) == t.take(k));
        } else {
            assert(t.take(k) == t);
        }
    } else {
        assert(t.take(k) == t);
    }
}

/// What every prefix of a valid time specification satisfies; the parser
/// rejects a text as soon as one of these fails on what it has read.
proof fn lemma_prefix_of_valid(s: Seq<char>, i: int)
    requires
        0 <= i <= s.len(),
        time_spec_seconds(s) is Some,
    ensures
        ({
            let q = colon_fields(s.take(i));
            &&& q.len() <= 3
            &&& forall|j: int| 0 <= j < q.len() - 1 ==> is_numeral(#[trigger] q[j])
            &&& forall|k: int| 0 <= k < q.last().len() ==> is_digit(#[trigger] q.last()[k])
            &&& digits_value(q.last()) <= u32::MAX
            &&& q.len() == 2 ==> digits_value(q[0]) <= u32::MAX
            &&& q.len() == 3 ==> 60 * digits_value(q[0]) + digits_value(q[1]) <= u32::MAX
        }),
{
    lemma_colon_fields_prefix(s, i);
    let q = colon_fields(s.take(i));
    let f = colon_fields(s);
    let idx = q.len() - 1;
    assert forall|j: int| 0 <= j < q.len() - 1 implies is_numeral(#[trigger] q[j]) by {
        assert(f[j] == q[j]);
    }
    assert(is_numeral(f[idx]));
    assert forall|k: int| 0 <= k < q.last().len() implies is_digit(#[trigger] q.last()[k]) by {
        assert(q.last()[k] == f[idx].take(q.last().len() as int)[k]);
        assert(is_digit(f[idx][k]));
    }
    assert forall|j: int| 0 <= j < f.len() implies 0 <= #[trigger] digits_value(f[j]) by {
        assert(is_numeral(f[j]));
        lemma_digits_value_prefix(f[j], 0);
    }
    lemma_digits_value_prefix(f[idx], q.last().len() as int);
    assert(digits_value(f[0]) >= 0);
    assert(digits_value(f[f.len() - 1]) >= 0);
    if f.len() == 3 {
        assert(digits_value(f[1]) >= 0);
    }
}

/// Parses a time specification (`SS`, `MM:SS` or `HH:MM:SS`) into seconds.
/// Returns `None` for any other shape, for a field that is empty or holds a
/// character other than a decimal digit, and for a total beyond `u32::MAX`.
pub fn parse_time_fmt(time_str: &str) -> (r: Option<u32>)
    ensures
        r == time_spec_seconds(time_str@),
{
    let ghost s = time_str@;
    let n = time_str.unicode_len();
    // Fields before the last colon read so far, combined in base sixty.
    let mut done: u64 = 0;
    // Value of the field being read, and whether it has a digit yet.
    let mut cur: u64 = 0;
    let mut cur_nonempty: bool = false;
    let mut colons: usize = 0;
    let mut i: usize = 0;
    proof {
        assert(s.take(0) == Seq::<char>::empty());
    }
    while i < n
        invariant
            n == s.len(),
            s == time_str@,
            0 <= i <= n,
            cur <= u32::MAX,
            done <= u32::MAX,
            ({
                let p = colon_fields(s.take(i as int));
                &&& p.len() == colons + 1
                &&& colons <= 2
                &&& forall|j: int| 0 <= j < colons ==> is_numeral(#[trigger] p[j])
                &&& forall|k: int| 0 <= k < p.last().len() ==> is_digit(#[trigger] p.last()[k])
                &&& cur_nonempty == (p.last().len() > 0)
                &&& cur == digits_value(p.last())
                &&& done == (if colons == 0 {
                    0
                } else if colons == 1 {
                    digits_value(p[0])
                } else {
                    60 * digits_value(p[0]) + digits_value(p[1])
                })
            }),
        decreases n - i,
    {
        let c = time_str.get_char(i);
        let ghost p = colon_fields(s.take(i as int));
        let ghost q = colon_fields(s.take(i + 1));
        proof {
            assert(s.take(i + 1).drop_last() == s.take(i as int));
            assert(s.take(i + 1).last() == c);
        }
        if '0' <= c && c <= '9' {
            let next = cur * 10 + (c as u64 - '0' as u64);
            proof {
                assert(q == p.update(p.len() - 1, p.last().push(c)));
                lemma_digits_value_push(p.last(), c);
                assert(q.last() == p.last().push(c));
                assert forall|k: int| 0 <= k < q.last().len() implies is_digit(
                    #[trigger] q.last()[k],
                ) by {
                    if k < p.last().len() {
                        assert(q.last()[k] == p.last()[k]);
                    }
                }
                assert forall|j: int| 0 <= j < colons implies is_numeral(#[trigger] q[j]) by {
                    assert(q[j] == p[j]);
                }
            }
            if next > u32::MAX as u64 {
                proof {
                    if time_spec_seconds(s) is Some {
                        lemma_prefix_of_valid(s, i + 1);
                    }
                }
                return None;
            }
            cur = next;
            cur_nonempty = true;
        } else if c == ':' {
            proof {
                assert(q == p.push(Seq::<char>::empty()));
                assert(q[colons as int] == p.last());
            }
            if !cur_nonempty || colons == 2 {
                proof {
                    if time_spec_seconds(s) is Some {
                        lemma_prefix_of_valid(s, i + 1);
                        assert(!is_numeral(q[colons as int]) || q.len() > 3);
                    }
                }
                return None;
            }
            let next = done * 60 + cur;
            if next > u32::MAX as u64 {
                proof {
                    if time_spec_seconds(s) is Some {
                        lemma_prefix_of_valid(s, i + 1);
                    }
                }
                return None;
            }
            proof {
                assert forall|j: int| 0 <= j < colons + 1 implies is_numeral(#[trigger] q[j]) by {
                    if j < colons {
                        assert(q[j] == p[j]);
                    }
                }
            }
            done = next;
            cur = 0;
            cur_nonempty = false;
            colons = colons + 1;
        } else {
            proof {
                if time_spec_seconds(s) is Some {
                    assert(q == p.update(p.len() - 1, p.last().push(c)));
                    assert(q.last()[q.last().len() - 1] == c);
                    lemma_prefix_of_valid(s, i + 1);
                }
            }
            return None;
        }
        i = i + 1;
    }
    let ghost f = colon_fields(s);
    proof {
        assert(s.take(n as int) == s);
    }
    if !cur_nonempty {
        proof {
            assert(!is_numeral(f[colons as int]));
        }
        return None;
    }
    let total = done * 60 + cur;
    if total > u32::MAX as u64 {
        return None;
    }
    proof {
        assert(fields_well_formed(f));
        assert(total == fields_total(f));
    }
    Some(total as u32)
}

/// The duration that an argument list asks for: the default where only the
/// program name is given, the parsed second argument where there are two,
/// and none otherwise.
pub open spec fn args_duration(args: Seq<String>) -> Option<u32> {
    if args.len() == 1 {
        Some(DEFAULT_DURATION_SECS)
    } else if args.len() == 2 {
        time_spec_seconds(args[1]@)
    } else {
        None
    }
}

/// The duration that the timer runs for: what the arguments ask for, or the
/// default where they ask for nothing usable.
pub open spec fn duration_or_default(args: Seq<String>) -> u32 {
    match args_duration(args) {
        Some(d) => d,
        None => DEFAULT_DURATION_SECS,
    }
}

/// Reads the duration from an argument list whose first element is the
/// program name; `None` where the list has neither one nor two elements, or
/// its second is no valid time specification.
pub fn parse_args(args: Vec<String>) -> (r: Option<u32>)
    ensures
        r == args_duration(args@),
{
    if args.len() == 1 {
        Some(DEFAULT_DURATION_SECS)
    } else if args.len() == 2 {
        parse_time_fmt(args[1].as_str())
    } else {
        None
    }
}

/// The duration in seconds for an argument list, falling back to
/// `DEFAULT_DURATION_SECS` wherever `parse_args` gives none.
pub fn parse_duration(args: Vec<String>) -> (r: u32)
    ensures
        r == duration_or_default(args@),
{
    match parse_args(args) {
        Some(d) => d,
        None => DEFAULT_DURATION_SECS,
    }
}

/// The program name alone, whatever it is, gives the default duration.
pub proof fn lemma_program_name_alone_gives_default(prog: String)
    ensures
        duration_or_default(seq![prog]) == DEFAULT_DURATION_SECS,
{
}

/// A second argument that is no valid time specification gives the default
/// duration.
pub proof fn lemma_invalid_spec_gives_default(prog: String, spec: String)
    requires
        time_spec_seconds(spec@) is None,
    ensures
        duration_or_default(seq![prog, spec]) == DEFAULT_DURATION_SECS,
{
}

/// Any number of arguments other than one or two gives the default duration.
pub proof fn lemma_wrong_arity_gives_default(args: Seq<String>)
    requires
        args.len() != 1 && args.len() != 2,
    ensures
        duration_or_default(args) == DEFAULT_DURATION_SECS,
{
}

/// A time specification holding any character other than a digit or a
/// colon is invalid.
pub proof fn lemma_non_digit_spec_is_invalid(s: Seq<char>)
    requires
        exists|k: int| 0 <= k < s.len() && !is_digit(s[k]) && s[k] != ':',
    ensures
        time_spec_seconds(s) is None,
{
    let k = choose|k: int| 0 <= k < s.len() && !is_digit(s[k]) && s[k] != ':';
    if time_spec_seconds(s) is Some {
        lemma_prefix_of_valid(s, k + 1);
        let t = s.take(k + 1);
        assert(t.drop_last() == s.take(k));
        lemma_colon_fields_len(s.take(k));
        let p = colon_fields(s.take(k));
        assert(colon_fields(t) == p.update(p.len() - 1, p.last().push(s[k])));
        assert(colon_fields(t).last()[colon_fields(t).last().len() - 1] == s[k]);
    }
}

} // verus!
