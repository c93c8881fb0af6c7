use vstd::prelude::*;

verus! {

broadcast use vstd::seq_lib::group_seq_properties;

/// ASCII whitespace: tab, line feed, vertical tab, form feed, carriage return, space.
pub open spec fn is_space(b: u8) -> bool {
    b == 32 || (9 <= b && b <= 13)
}

/// Splitting a prefix of a line: the fields already closed, and the field under way.
pub open spec fn split_state(s: Seq<u8>) -> (Seq<Seq<u8>>, Seq<u8>)
    decreases s.len(),
{
    if s.len() == 0 {
        (Seq::empty(), Seq::empty())
    } else {
        let (done, cur) = split_state(s.drop_last());
        if is_space(s.last()) {
            if cur.len() > 0 {
                (done.push(cur), Seq::empty())
            } else {
                (done, cur)
            }
        } else {
            (done, cur.push(s.last()))
        }
    }
}

/// The whitespace-separated fields of a line, in order, none of them empty.
pub open spec fn fields(s: Seq<u8>) -> Seq<Seq<u8>> {
    let (done, cur) = split_state(s);
    if cur.len() > 0 {
        done.push(cur)
    } else {
        done
    }
}

pub open spec fn views(v: Seq<Vec<u8>>) -> Seq<Seq<u8>> {
    v.map_values(|t: Vec<u8>| t@)
}

/// Splits a line into its whitespace-separated fields.
pub fn split_fields(line: &Vec<u8>) -> (r: Vec<Vec<u8>>)
    ensures
        views(r@) == fields(line@),
{
    let mut done: Vec<Vec<u8>> = Vec::new();
    let mut cur: Vec<u8> = Vec::new();
    let mut i: usize = 0;
    while i < line.len()
        invariant
            i <= line@.len(),
            (views(done@), cur@) == split_state(line@.take(i as int)),
        decreases line@.len() - i,
    {
        let b = line[i];
        proof {
            assert(line@.take(i as int + 1).drop_last() == line@.take(i as int));
        }
        if b == 32 || (9 <= b && b <= 13) {
            if cur.len() > 0 {
                let ghost before = done@;
                done.push(cur);
                proof {
                    assert(views(done@) =~= views(before).push(cur@));
                }
                cur = Vec::new();
            }
        } else {
            cur.push(b);
        }
        i += 1;
    }
    proof {
        assert(line@.take(line@.len() as int) == line@);
    }
    if cur.len() > 0 {
        let ghost before = done@;
        done.push(cur);
        proof {
            assert(views(done@) =~= views(before).push(cur@));
        }
    }
    done
}

pub open spec fn is_digit(b: u8) -> bool {
    48 <= b && b <= 57
}

/// The number that a sequence of decimal digits writes.
pub open spec fn digits_value(s: Seq<u8>) -> nat
    decreases s.len(),
{
    if s.len() == 0 {
        0
    } else {
        digits_value(s.drop_last()) * 10 + (s.last() - 48) as nat
    }
}

/// The digits of an unsigned decimal field: all of it but an optional leading `+`.
pub open spec fn unsigned_digits(s: Seq<u8>) -> Seq<u8> {
    if s.len() > 0 && s[0] == 43 {
        s.subrange(1, s.len() as int)
    } else {
        s
    }
}

/// The value of an unsigned decimal field, when it is one that fits a `usize`:
/// an optional `+` and at least one digit, nothing else.
pub open spec fn unsigned_value(s: Seq<u8>) -> Option<usize> {
    let d = unsigned_digits(s);
    if d.len() > 0 && (forall|i: int| 0 <= i < d.len() ==> is_digit(#[trigger] d[i]))
        && digits_value(d) <= usize::MAX {
        Some(digits_value(d) as usize)
    } else {
        None
    }
}

/// More digits never make a smaller number.
proof fn lemma_value_grows(s: Seq<u8>, i: int)
    requires
        0 <= i <= s.len(),
        forall|k: int| 0 <= k < s.len() ==> is_digit(#[trigger] s[k]),
    ensures
        digits_value(s.take(i)) <= digits_value(s),
    decreases s.len(),
{
    if i < s.len() {
        let t = s.drop_last();
        assert(t.take(i) == s.take(i));
        lemma_value_grows(t, i);
    } else {
        assert(s.take(i) == s);
    }
}

/// Reads an unsigned decimal field (an optional `+`, then digits) as a `usize`;
/// `None` for anything else or a number too large.
pub fn parse_unsigned(t: &Vec<u8>) -> (r: Option<usize>)
    ensures
        r == unsigned_value(t@),
{
    let start: usize = if t.len() > 0 && t[0] == 43 {
        1
    } else {
        0
    };
    let ghost d = unsigned_digits(t@);
    assert(d == t@.subrange(start as int, t@.len() as int));
    if start >= t.len() {
        return None;
    }
    let mut acc: usize = 0;
    let mut i: usize = start;
    while i < t.len()
        invariant
            start <= i <= t@.len(),
            d == t@.subrange(start as int, t@.len() as int),
            d == unsigned_digits(t@),
            forall|k: int| 0 <= k < i - start ==> is_digit(#[trigger] d[k]),
            acc as nat == digits_value(d.take(i - start)),
        decreases t@.len() - i,
    {
        let b = t[i];
        proof {
            assert(d[i - start] == b);
        }
        if b < 48 || b > 57 {
            proof {
                assert(!is_digit(d[i - start]));
            }
            return None;
        }
        let digit = (b - 48) as usize;
        proof {
            assert(d.take(i - start + 1).drop_last() == d.take(i - start));
            assert(d.take(i - start + 1).last() == b);
            assert(digits_value(d.take(i - start + 1)) == acc * 10 + digit);
        }
        if acc > (usize::MAX - digit) / 10 {
            proof {
                assert(acc * 10 + digit > usize::MAX) by (nonlinear_arith)
                    requires
                        acc > (usize::MAX - digit) / 10,
                        digit <= 9,
                ;
                if forall|k: int| 0 <= k < d.len() ==> is_digit(#[trigger] d[k]) {
                    lemma_value_grows(d, i - start + 1);
                }
            }
            return None;
        }
        proof {
            assert(acc * 10 + digit <= usize::MAX) by (nonlinear_arith)
                requires
                    acc <= (usize::MAX - digit) / 10,
                    digit <= 9,
            ;
        }
        acc = acc * 10 + digit;
        i += 1;
    }
    proof {
        assert(d.take(d.len() as int) == d);
    }
    Some(acc)
}

/// A FORTRAN exponent letter `D` read as `E`; every other byte stays.
pub open spec fn exponent_letter(b: u8) -> u8 {
    if b == 68 {
        69
    } else {
        b
    }
}

/// Rewrites FORTRAN-style exponents (`1.0D-3`) as `1.0E-3`.
pub fn fortran_exponent(t: &Vec<u8>) -> (r: Vec<u8>)
    ensures
        r@ == t@.map_values(|b: u8| exponent_letter(b)),
{
    let mut r: Vec<u8> = Vec::new();
    let mut i: usize = 0;
    while i < t.len()
        invariant
            i <= t@.len(),
            r@ == t@.take(i as int).map_values(|b: u8| exponent_letter(b)),
        decreases t@.len() - i,
    {
        let b = t[i];
        r.push(if b == 68 {
            69
        } else {
            b
        });
        proof {
            assert(t@.take(i as int + 1).map_values(|b: u8| exponent_letter(b)) =~= t@.take(
                i as int,
            ).map_values(|b: u8| exponent_letter(b)).push(exponent_letter(b)));
        }
        i += 1;
    }
    proof {
        assert(t@.take(t@.len() as int) == t@);
    }
    r
}

/// One record of a coefficient file: degree `n`, order `m`, and the texts of the
/// `C` and `S` coefficients with their exponents written with `E`.
pub struct CoefRecord {
    pub n: usize,
    pub m: usize,
    pub c: Vec<u8>,
    pub s: Vec<u8>,
}

/// What a line `n m C S ...` holds: its first two fields read as unsigned numbers,
/// its next two with their exponent letters rewritten; `None` if it has fewer than
/// four fields or either number is not one.
pub open spec fn record_of(line: Seq<u8>) -> Option<(usize, usize, Seq<u8>, Seq<u8>)> {
    let f = fields(line);
    if f.len() >= 4 && unsigned_value(f[0]) is Some && unsigned_value(f[1]) is Some {
        Some(
            (
                unsigned_value(f[0])->0,
                unsigned_value(f[1])->0,
                f[2].map_values(|b: u8| exponent_letter(b)),
                f[3].map_values(|b: u8| exponent_letter(b)),
            ),
        )
    } else {
        None
    }
}

/// Reads one line of a coefficient file; fields after the fourth are ignored.
pub fn parse_record(line: &Vec<u8>) -> (r: Option<CoefRecord>)
    ensures
        r is Some <==> record_of(line@) is Some,
        r is Some ==> ({
            let (n, m, c, s) = record_of(line@)->0;
            &&& r->0.n == n
            &&& r->0.m == m
            &&& r->0.c@ == c
            &&& r->0.s@ == s
        }),
{
    let f = split_fields(line);
    proof {
        assert(views(f@).len() == f@.len());
    }
    if f.len() < 4 {
        return None;
    }
    proof {
        assert(views(f@)[0] == f@[0]@);
        assert(views(f@)[1] == f@[1]@);
        assert(views(f@)[2] == f@[2]@);
        assert(views(f@)[3] == f@[3]@);
    }
    let n = parse_unsigned(&f[0]);
    let m = parse_unsigned(&f[1]);
    match (n, m) {
        (Some(n), Some(m)) => {
            let c = fortran_exponent(&f[2]);
            let s = fortran_exponent(&f[3]);
            Some(CoefRecord { n, m, c, s })
        },
        _ => None,
    }
}

/// The `C` and `S` tables of a spherical-harmonic expansion, `(max_n + 1) x
/// (max_m + 1)`, filled record by record from a coefficient file.
pub struct SphCoefficients<T> {
    pub max_n: usize,
    pub max_m: usize,
    pub c: Vec<Vec<T>>,
    pub s: Vec<Vec<T>>,
    /// How many malformed records were read as `(0, 0, zero, zero)`.
    pub defaulted: usize,
    /// Whether the record `(max_n, max_m)` has been read; nothing after it is.
    pub finished: bool,
}

/// A `rows x cols` table with `zero` in every cell.
pub open spec fn is_zero_table<T>(t: Seq<Vec<T>>, rows: int, cols: int, zero: T) -> bool {
    &&& t.len() == rows
    &&& forall|n: int| 0 <= n < rows ==> #[trigger] t[n]@.len() == cols
    &&& forall|n: int, m: int| 0 <= n < rows && 0 <= m < cols ==> #[trigger] t[n]@[m] == zero
}

fn zero_table<T: Copy>(rows: usize, cols: usize, zero: T) -> (r: Vec<Vec<T>>)
    ensures
        is_zero_table(r@, rows as int, cols as int, zero),
{
    let mut r: Vec<Vec<T>> = Vec::new();
    let mut n: usize = 0;
    while n < rows
        invariant
            n <= rows,
            is_zero_table(r@, n as int, cols as int, zero),
        decreases rows - n,
    {
        let mut row: Vec<T> = Vec::new();
        let mut m: usize = 0;
        while m < cols
            invariant
                m <= cols,
                row@.len() == m,
                forall|j: int| 0 <= j < m ==> #[trigger] row@[j] == zero,
            decreases cols - m,
        {
            row.push(zero);
            m += 1;
        }
        r.push(row);
        n += 1;
    }
    r
}

/// Table `t` after cell `(n, m)` was set to `v`.
pub open spec fn table_set<T>(t: Seq<Vec<T>>, n: int, m: int, v: T) -> Seq<Seq<T>> {
    t.map_values(|row: Vec<T>| row@).update(n, t[n]@.update(m, v))
}

pub open spec fn table_view<T>(t: Seq<Vec<T>>) -> Seq<Seq<T>> {
    t.map_values(|row: Vec<T>| row@)
}

impl<T: Copy> SphCoefficients<T> {
    /// Both tables sized `(max_n + 1) x (max_m + 1)`; all rows have that width.
    pub open spec fn wf(&self) -> bool {
        &&& self.c@.len() == self.max_n + 1
        &&& self.s@.len() == self.max_n + 1
        &&& forall|n: int| 0 <= n <= self.max_n ==> #[trigger] self.c@[n]@.len() == self.max_m + 1
        &&& forall|n: int| 0 <= n <= self.max_n ==> #[trigger] self.s@[n]@.len() == self.max_m + 1
    }

    /// Empty tables for degrees up to `max_n` and orders up to `max_m`.
    pub fn new(max_n: usize, max_m: usize, zero: T) -> (r: SphCoefficients<T>)
        requires
            max_n < usize::MAX,
            max_m < usize::MAX,
        ensures
            r.wf(),
            r.max_n == max_n,
            r.max_m == max_m,
            is_zero_table(r.c@, max_n + 1, max_m + 1, zero),
            is_zero_table(r.s@, max_n + 1, max_m + 1, zero),
            r.defaulted == 0,
            !r.finished,
    {
        let c = zero_table(max_n + 1, max_m + 1, zero);
        let s = zero_table(max_n + 1, max_m + 1, zero);
        SphCoefficients { max_n, max_m, c, s, defaulted: 0, finished: false }
    }

    /// Takes the next record of the file: `Some((n, m, c, s))`, or `None` for a
    /// malformed one, which counts as `(0, 0, zero, zero)` and is counted in
    /// `defaulted` (which saturates). A record within the tables is stored; one
    /// outside them is ignored; the record `(max_n, max_m)` ends the reading. Once
    /// finished, records change nothing.
    pub fn read_record(&mut self, rec: Option<(usize, usize, T, T)>, zero: T)
        requires
            old(self).wf(),
        ensures
            final(self).wf(),
            final(self).max_n == old(self).max_n,
            final(self).max_m == old(self).max_m,
            old(self).finished ==> *final(self) == *old(self),
            !old(self).finished ==> ({
                let (n, m, c, s) = match rec {
                    Some(r) => r,
                    None => (0usize, 0usize, zero, zero),
                };
                &&& if n <= old(self).max_n && m <= old(self).max_m {
                    &&& table_view(final(self).c@) == table_set(old(self).c@, n as int, m as int, c)
                    &&& table_view(final(self).s@) == table_set(old(self).s@, n as int, m as int, s)
                } else {
                    &&& final(self).c == old(self).c
                    &&& final(self).s == old(self).s
                }
                &&& final(self).finished == (n == old(self).max_n && m == old(self).max_m)
                &&& final(self).defaulted == if rec is None && old(self).defaulted < usize::MAX {
                    old(self).defaulted + 1
                } else {
                    old(self).defaulted as int
                }
            }),
    {
        if self.finished {
            return;
        }
        let (n, m, c, s) = match rec {
            Some(r) => r,
            None => {
                if self.defaulted < usize::MAX {
                    self.defaulted = self.defaulted + 1;
                }
                (0usize, 0usize, zero, zero)
            },
        };
        if n <= self.max_n && m <= self.max_m {
            let ghost c0 = self.c@;
            let ghost s0 = self.s@;
            self.c[n].set(m, c);
            self.s[n].set(m, s);
            proof {
                assert(table_view(self.c@) =~= table_set(c0, n as int, m as int, c));
                assert(table_view(self.s@) =~= table_set(s0, n as int, m as int, s));
            }
        }
        self.finished = n == self.max_n && m == self.max_m;
    }
}

} // verus!
