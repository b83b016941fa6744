//! The per-type frequency table.
//!
//! [`NalUnitCount`] maps each [`NalUnitType`] to the number of successfully
//! parsed units of that type.  The table is modelled as a sequence of
//! `(type, count)` pairs in insertion order, with one entry per type, so a
//! snapshot renders deterministically within a run.

use vstd::prelude::*;
use vstd::string::StringExecFns;

use crate::nal::NalUnit;
use crate::nal::NalUnitType;

verus! {

/// Whether a table holds at most one entry per type, as a mapping must.
pub open spec fn distinct_keys(entries: Seq<(NalUnitType, int)>) -> bool {
    forall|i: int, j: int|
        0 <= i < j < entries.len() ==> (#[trigger] entries[i]).0 != (#[trigger] entries[j]).0
}

/// Whether every count in a table is non-negative.
pub open spec fn nonneg_counts(entries: Seq<(NalUnitType, int)>) -> bool {
    forall|i: int| 0 <= i < entries.len() ==> (#[trigger] entries[i]).1 >= 0
}

/// The count a table holds for one type: the count of its first entry for
/// that type, or 0 where it has none.
pub open spec fn spec_count_of(entries: Seq<(NalUnitType, int)>, t: NalUnitType) -> int
    decreases entries.len(),
{
    if entries.len() == 0 {
        0
    } else if entries[0].0 == t {
        entries[0].1
    } else {
        spec_count_of(entries.skip(1), t)
    }
}

/// The sum of all counts in a table.
pub open spec fn spec_total(entries: Seq<(NalUnitType, int)>) -> int
    decreases entries.len(),
{
    if entries.len() == 0 {
        0
    } else {
        entries[0].1 + spec_total(entries.skip(1))
    }
}

/// The table after one unit of type `t` is counted: the first entry for `t`
/// is incremented in place, or a fresh entry with count 1 is appended where
/// none exists.
pub open spec fn spec_bump(entries: Seq<(NalUnitType, int)>, t: NalUnitType) -> Seq<
    (NalUnitType, int),
>
    decreases entries.len(),
{
    if entries.len() == 0 {
        seq![(t, 1int)]
    } else if entries[0].0 == t {
        seq![(entries[0].0, entries[0].1 + 1)] + entries.skip(1)
    } else {
        seq![entries[0]] + spec_bump(entries.skip(1), t)
    }
}

/// The table after a whole sequence of unit types is counted, in order.
pub open spec fn spec_apply_units(
    entries: Seq<(NalUnitType, int)>,
    types: Seq<NalUnitType>,
) -> Seq<(NalUnitType, int)>
    decreases types.len(),
{
    if types.len() == 0 {
        entries
    } else {
        spec_apply_units(spec_bump(entries, types[0]), types.skip(1))
    }
}

/// A table of non-negative counts has a non-negative total.
pub proof fn lemma_total_nonneg(entries: Seq<(NalUnitType, int)>)
    requires
        nonneg_counts(entries),
    ensures
        spec_total(entries) >= 0,
    decreases entries.len(),
{
    if entries.len() > 0 {
        assert(forall|k: int|
            0 <= k < entries.skip(1).len() ==> #[trigger] entries.skip(1)[k] == entries[k + 1]);
        lemma_total_nonneg(entries.skip(1));
    }
}

/// In a table of non-negative counts, no single count exceeds the total.
pub proof fn lemma_entry_le_total(entries: Seq<(NalUnitType, int)>, i: int)
    requires
        nonneg_counts(entries),
        0 <= i < entries.len(),
    ensures
        entries[i].1 <= spec_total(entries),
        spec_total(entries) >= 0,
    decreases entries.len(),
{
    assert(forall|k: int|
        0 <= k < entries.skip(1).len() ==> #[trigger] entries.skip(1)[k] == entries[k + 1]);
    assert(nonneg_counts(entries.skip(1)));
    lemma_total_nonneg(entries.skip(1));
    if i > 0 {
        lemma_entry_le_total(entries.skip(1), i - 1);
        assert(entries.skip(1)[i - 1] == entries[i]);
    }
}

/// Counting one unit raises the table's total by exactly 1.
pub proof fn lemma_bump_total(entries: Seq<(NalUnitType, int)>, t: NalUnitType)
    ensures
        spec_total(spec_bump(entries, t)) == spec_total(entries) + 1,
    decreases entries.len(),
{
    if entries.len() == 0 {
        assert(spec_total(seq![(t, 1int)].skip(1)) == 0) by {
            assert(seq![(t, 1int)].skip(1) =~= Seq::<(NalUnitType, int)>::empty());
        }
    } else if entries[0].0 == t {
        let bumped = seq![(entries[0].0, entries[0].1 + 1)] + entries.skip(1);
        assert(bumped.skip(1) =~= entries.skip(1));
    } else {
        lemma_bump_total(entries.skip(1), t);
        let bumped = seq![entries[0]] + spec_bump(entries.skip(1), t);
        assert(bumped.skip(1) =~= spec_bump(entries.skip(1), t));
    }
}

/// Counting a unit of type `t` raises the count for `t` by exactly 1 and
/// leaves the count of every other type unchanged — counting never
/// deduplicates, so a byte-for-byte duplicate of an earlier unit counts
/// again.
pub proof fn lemma_bump_count_of(entries: Seq<(NalUnitType, int)>, t: NalUnitType, u: NalUnitType)
    ensures
        spec_count_of(spec_bump(entries, t), t) == spec_count_of(entries, t) + 1,
        u != t ==> spec_count_of(spec_bump(entries, t), u) == spec_count_of(entries, u),
    decreases entries.len(),
{
    if entries.len() == 0 {
        assert(seq![(t, 1int)].skip(1) =~= Seq::<(NalUnitType, int)>::empty());
        assert(seq![(t, 1int)][0] == (t, 1int));
        assert(spec_count_of(seq![(t, 1int)].skip(1), u) == 0);
        assert(spec_count_of(seq![(t, 1int)].skip(1), t) == 0);
    } else if entries[0].0 == t {
        let bumped = seq![(entries[0].0, entries[0].1 + 1)] + entries.skip(1);
        assert(bumped[0] == (entries[0].0, entries[0].1 + 1));
        assert(bumped.skip(1) =~= entries.skip(1));
    } else {
        lemma_bump_count_of(entries.skip(1), t, u);
        let bumped = seq![entries[0]] + spec_bump(entries.skip(1), t);
        assert(bumped[0] == entries[0]);
        assert(bumped.skip(1) =~= spec_bump(entries.skip(1), t));
    }
}

/// Counting preserves the one-entry-per-type invariant: a table reached
/// from the empty table by counting stays a mapping.
pub proof fn lemma_bump_distinct(entries: Seq<(NalUnitType, int)>, t: NalUnitType)
    requires
        distinct_keys(entries),
    ensures
        distinct_keys(spec_bump(entries, t)),
        spec_bump(entries, t).len() >= entries.len(),
        forall|i: int|
            0 <= i < entries.len() ==> (#[trigger] spec_bump(entries, t)[i]).0 == entries[i].0,
        forall|i: int|
            entries.len() <= i < spec_bump(entries, t).len() ==> (#[trigger] spec_bump(entries, t)[i]).0
                == t,
    decreases entries.len(),
{
    if entries.len() == 0 {
    } else if entries[0].0 == t {
        let bumped = seq![(entries[0].0, entries[0].1 + 1)] + entries.skip(1);
        assert(forall|i: int| 0 <= i < entries.len() ==> (#[trigger] bumped[i]).0 == entries[i].0);
    } else {
        assert(distinct_keys(entries.skip(1))) by {
            assert(forall|i: int, j: int|
                0 <= i < j < entries.skip(1).len() ==> (#[trigger] entries.skip(1)[i]).0 != (
                #[trigger] entries.skip(1)[j]).0) by {
                assert(forall|i: int|
                    0 <= i < entries.skip(1).len() ==> #[trigger] entries.skip(1)[i] == entries[i
                        + 1]);
            }
        }
        lemma_bump_distinct(entries.skip(1), t);
        let rest = spec_bump(entries.skip(1), t);
        let bumped = seq![entries[0]] + rest;
        assert(forall|i: int| 0 <= i < rest.len() ==> #[trigger] bumped[i + 1] == rest[i]);
        assert(forall|j: int| 1 <= j < bumped.len() ==> (#[trigger] bumped[j]).0 != entries[0].0)
            by {
            assert(forall|i: int|
                0 <= i < entries.skip(1).len() ==> (#[trigger] entries.skip(1)[i]).0 != entries[0].0)
                by {
                assert(forall|i: int|
                    0 <= i < entries.skip(1).len() ==> #[trigger] entries.skip(1)[i] == entries[i
                        + 1]);
            }
        }
        assert(distinct_keys(bumped));
    }
}

/// A mapping stays a mapping under any whole sequence of updates: a table
/// with one entry per type keeps one entry per type however many units are
/// counted into it, the empty table included.
pub proof fn lemma_apply_units_distinct(entries: Seq<(NalUnitType, int)>, types: Seq<NalUnitType>)
    requires
        distinct_keys(entries),
    ensures
        distinct_keys(spec_apply_units(entries, types)),
    decreases types.len(),
{
    if types.len() > 0 {
        lemma_bump_distinct(entries, types[0]);
        lemma_apply_units_distinct(spec_bump(entries, types[0]), types.skip(1));
    }
}

/// The total of a frequency table after counting N units, starting from any
/// table, is the starting total plus N; from the empty table it is exactly
/// N.  Units rejected by validation never reach the table, so the sum of
/// all counts equals the number of successfully parsed units.
pub proof fn lemma_apply_units_total(entries: Seq<(NalUnitType, int)>, types: Seq<NalUnitType>)
    ensures
        spec_total(spec_apply_units(entries, types)) == spec_total(entries) + types.len(),
        spec_total(spec_apply_units(Seq::empty(), types)) == types.len(),
    decreases types.len(),
{
    assert(spec_total(Seq::<(NalUnitType, int)>::empty()) == 0);
    if types.len() == 0 {
    } else {
        lemma_bump_total(entries, types[0]);
        lemma_bump_total(Seq::empty(), types[0]);
        lemma_apply_units_total(spec_bump(entries, types[0]), types.skip(1));
        lemma_apply_units_total(spec_bump(Seq::empty(), types[0]), types.skip(1));
    }
}

/// The decimal digit character for one digit value.
pub open spec fn spec_digit_char(d: int) -> char
    recommends
        0 <= d < 10,
{
    if d == 0 {
        '0'
    } else if d == 1 {
        '1'
    } else if d == 2 {
        '2'
    } else if d == 3 {
        '3'
    } else if d == 4 {
        '4'
    } else if d == 5 {
        '5'
    } else if d == 6 {
        '6'
    } else if d == 7 {
        '7'
    } else if d == 8 {
        '8'
    } else {
        '9'
    }
}

/// The decimal rendering of a non-negative number, most significant digit
/// first, with no leading zeros (a lone `0` for zero).
pub open spec fn spec_dec(n: int) -> Seq<char>
    recommends
        n >= 0,
    decreases n,
{
    if n < 10 {
        seq![spec_digit_char(n)]
    } else {
        spec_dec(n / 10).push(spec_digit_char(n % 10))
    }
}

/// The textual label of a type, as a snapshot renders it.
pub open spec fn spec_label(t: NalUnitType) -> Seq<char> {
    match t {
        NalUnitType::Slice => "Slice"@,
        NalUnitType::Sps => "Sps"@,
        NalUnitType::Pps => "Pps"@,
        NalUnitType::Other(c) => "Other("@ + spec_dec(c as int) + ")"@,
    }
}

/// One rendered table entry: the type's label, a colon, its count.
pub open spec fn spec_entry(e: (NalUnitType, int)) -> Seq<char> {
    spec_label(e.0) + ": "@ + spec_dec(e.1)
}

/// A rendered table: its entries in order, joined with a comma and a space.
pub open spec fn spec_render(entries: Seq<(NalUnitType, int)>) -> Seq<char>
    decreases entries.len(),
{
    if entries.len() == 0 {
        Seq::empty()
    } else if entries.len() == 1 {
        spec_entry(entries[0])
    } else {
        spec_entry(entries[0]) + ", "@ + spec_render(entries.skip(1))
    }
}

/// The one-character string for a decimal digit.
fn digit_str(d: u64) -> (s: &'static str)
    requires
        d < 10,
    ensures
        s@ == seq![spec_digit_char(d as int)],
{
    let s: &'static str = if d == 0 {
        "0"
    } else if d == 1 {
        "1"
    } else if d == 2 {
        "2"
    } else if d == 3 {
        "3"
    } else if d == 4 {
        "4"
    } else if d == 5 {
        "5"
    } else if d == 6 {
        "6"
    } else if d == 7 {
        "7"
    } else if d == 8 {
        "8"
    } else {
        "9"
    };
    proof {
        reveal_strlit("0");
        reveal_strlit("1");
        reveal_strlit("2");
        reveal_strlit("3");
        reveal_strlit("4");
        reveal_strlit("5");
        reveal_strlit("6");
        reveal_strlit("7");
        reveal_strlit("8");
        reveal_strlit("9");
        assert(s@ =~= seq![spec_digit_char(d as int)]);
    }
    s
}

/// Appends the decimal rendering of `n` to `out`.
fn push_decimal(out: &mut String, n: u64)
    ensures
        final(out)@ == old(out)@ + spec_dec(n as int),
    decreases n,
{
    if n < 10 {
        out.append(digit_str(n));
    } else {
        let q: u64 = n / 10;
        let r: u64 = n % 10;
        push_decimal(out, q);
        out.append(digit_str(r));
        proof {
            assert(out@ =~= old(out)@ + spec_dec(n as int));
        }
    }
}

/// Appends the label of one type to `out`.
fn push_label(out: &mut String, t: NalUnitType)
    ensures
        final(out)@ == old(out)@ + spec_label(t),
{
    match t {
        NalUnitType::Slice => {
            out.append("Slice");
        },
        NalUnitType::Sps => {
            out.append("Sps");
        },
        NalUnitType::Pps => {
            out.append("Pps");
        },
        NalUnitType::Other(c) => {
            out.append("Other(");
            push_decimal(out, c as u64);
            out.append(")");
            proof {
                assert((c as u64) as int == c as int);
                assert(out@ =~= old(out)@ + spec_label(t));
            }
        },
    }
}

/// Renders the entries of `counts` from index `i` on.
fn render_from(counts: &Vec<(NalUnitType, u64)>, i: usize) -> (s: String)
    requires
        i <= counts@.len(),
    ensures
        s@ == spec_render(table_model(counts@).skip(i as int)),
    decreases counts@.len() - i,
{
    let ghost m = table_model(counts@);
    let mut out = String::new();
    if i < counts.len() {
        let e: (NalUnitType, u64) = counts[i];
        proof {
            assert(m.skip(i as int)[0] == m[i as int]);
            assert(m[i as int] == (e.0, e.1 as int));
            assert(m.skip(i as int).skip(1) =~= m.skip(i + 1 as int));
        }
        push_label(&mut out, e.0);
        out.append(": ");
        push_decimal(&mut out, e.1);
        proof {
            assert(out@ =~= spec_entry((e.0, e.1 as int)));
        }
        if i + 1 < counts.len() {
            out.append(", ");
            let rest = render_from(counts, i + 1);
            out.append(rest.as_str());
            proof {
                assert(out@ =~= spec_render(m.skip(i as int)));
            }
        } else {
            proof {
                assert(m.skip(i as int).len() == 1);
                assert(out@ =~= spec_render(m.skip(i as int)));
            }
        }
    } else {
        proof {
            assert(m.skip(i as int) =~= Seq::<(NalUnitType, int)>::empty());
            assert(out@ =~= spec_render(m.skip(i as int)));
        }
    }
    out
}

/// The table a vector of `u64`-counted entries stands for.
pub open spec fn table_model(entries: Seq<(NalUnitType, u64)>) -> Seq<(NalUnitType, int)> {
    entries.map_values(|p: (NalUnitType, u64)| (p.0, p.1 as int))
}

/// Counts stored as `u64` are non-negative in the model.
proof fn lemma_model_nonneg(entries: Seq<(NalUnitType, u64)>)
    ensures
        nonneg_counts(table_model(entries)),
{
    assert(forall|i: int|
        0 <= i < entries.len() ==> (#[trigger] table_model(entries)[i]).1 >= 0);
}

/// The running frequency table: one entry per [`NalUnitType`], in insertion
/// order, each holding the number of successfully parsed units of that type.
pub struct NalUnitCount {
    counts: Vec<(NalUnitType, u64)>,
}

impl NalUnitCount {
    /// The counts are stored in `u64`, so the table's total must fit one.
    #[verifier::type_invariant]
    spec fn wf(self) -> bool {
        spec_total(self.table()) <= u64::MAX
    }

    /// The table this counter holds, in insertion order.
    pub closed spec fn table(self) -> Seq<(NalUnitType, int)> {
        table_model(self.counts@)
    }

    /// An empty frequency table.
    pub fn new() -> (c: Self)
        ensures
            c.table() == Seq::<(NalUnitType, int)>::empty(),
    {
        let counts: Vec<(NalUnitType, u64)> = Vec::new();
        proof {
            assert(table_model(counts@) =~= Seq::<(NalUnitType, int)>::empty());
            assert(spec_total(Seq::<(NalUnitType, int)>::empty()) == 0);
        }
        NalUnitCount { counts }
    }

    /// Counts one parsed unit: the entry for the unit's type is incremented
    /// by 1, after a zero-initialized entry is appended where the type is
    /// new.  The bound on the running total is a machine limit: counts are
    /// stored in `u64`.
    pub fn update(&mut self, nal_unit: &NalUnit)
        requires
            spec_total(old(self).table()) < u64::MAX,
        ensures
            final(self).table() == spec_bump(old(self).table(), nal_unit.spec_type()),
    {
        proof {
            use_type_invariant(&*self);
            lemma_model_nonneg(self.counts@);
        }
        let key = nal_unit.to_type();
        let ghost orig = self.table();
        let ghost t = nal_unit.spec_type();
        let n: usize = self.counts.len();
        let mut out: Vec<(NalUnitType, u64)> = Vec::new();
        proof {
            assert(table_model(out@) =~= Seq::<(NalUnitType, int)>::empty());
            assert(orig.skip(0) =~= orig);
            assert(table_model(out@) + orig.skip(0) =~= orig);
            assert(table_model(out@) + spec_bump(orig.skip(0), t) =~= spec_bump(orig, t));
        }
        let mut bumped: bool = false;
        let mut i: usize = 0;
        while i < n
            invariant
                *self == *old(self),
                spec_total(orig) < u64::MAX,
                nonneg_counts(orig),
                orig == self.table(),
                t == key,
                n == self.counts@.len(),
                i <= n,
                bumped ==> table_model(out@) + orig.skip(i as int) == spec_bump(orig, t),
                !bumped ==> table_model(out@) + orig.skip(i as int) == orig,
                !bumped ==> spec_bump(orig, t) == table_model(out@) + spec_bump(
                    orig.skip(i as int),
                    t,
                ),
            decreases n - i,
        {
            let e: (NalUnitType, u64) = self.counts[i];
            let ghost out_pre = out@;
            proof {
                assert(orig.skip(i as int)[0] == orig[i as int]);
                assert(orig[i as int] == (e.0, e.1 as int));
                assert(orig.skip(i as int).skip(1) =~= orig.skip(i + 1 as int));
            }
            if !bumped && e.0 == key {
                proof {
                    lemma_entry_le_total(orig, i as int);
                }
                out.push((e.0, e.1 + 1));
                bumped = true;
                proof {
                    assert(table_model(out@) =~= table_model(out_pre) + seq![
                        (e.0, e.1 as int + 1),
                    ]);
                    assert(table_model(out@) + orig.skip(i + 1 as int) =~= spec_bump(orig, t));
                }
            } else {
                out.push(e);
                proof {
                    assert(table_model(out@) =~= table_model(out_pre) + seq![(e.0, e.1 as int)]);
                    if bumped {
                        assert(table_model(out@) + orig.skip(i + 1 as int) =~= spec_bump(orig, t));
                    } else {
                        assert(table_model(out@) + orig.skip(i + 1 as int) =~= orig);
                        assert(spec_bump(orig, t) =~= table_model(out@) + spec_bump(
                            orig.skip(i + 1 as int),
                            t,
                        ));
                    }
                }
            }
            i = i + 1;
        }
        proof {
            assert(orig.skip(n as int) =~= Seq::<(NalUnitType, int)>::empty());
        }
        if !bumped {
            let ghost out_pre = out@;
            out.push((key, 1));
            proof {
                assert(spec_bump(Seq::<(NalUnitType, int)>::empty(), t) == seq![(t, 1int)]);
                assert(table_model(out@) =~= table_model(out_pre) + seq![(t, 1int)]);
                assert(table_model(out@) =~= spec_bump(orig, t));
            }
        } else {
            proof {
                assert(table_model(out@) + Seq::<(NalUnitType, int)>::empty() =~= table_model(
                    out@,
                ));
            }
        }
        proof {
            lemma_bump_total(orig, t);
        }
        self.counts = out;
    }

    /// The number of units counted so far for one type: the type's entry,
    /// or 0 where the table has none.
    pub fn count(&self, t: NalUnitType) -> (c: u64)
        ensures
            c as int == spec_count_of(self.table(), t),
    {
        let ghost m = self.table();
        proof {
            assert(m.skip(0) =~= m);
        }
        let n: usize = self.counts.len();
        let mut i: usize = 0;
        while i < n
            invariant
                m == self.table(),
                n == self.counts@.len(),
                i <= n,
                spec_count_of(m, t) == spec_count_of(m.skip(i as int), t),
            decreases n - i,
        {
            let e: (NalUnitType, u64) = self.counts[i];
            proof {
                assert(m.skip(i as int)[0] == m[i as int]);
                assert(m[i as int] == (e.0, e.1 as int));
                assert(m.skip(i as int).skip(1) =~= m.skip(i + 1 as int));
            }
            if e.0 == t {
                return e.1;
            }
            i = i + 1;
        }
        proof {
            assert(m.skip(n as int) =~= Seq::<(NalUnitType, int)>::empty());
        }
        0
    }

    /// A formatted snapshot of the table: each entry rendered as
    /// `type: count` (`Other` types as `Other(code)`), in insertion order,
    /// joined with a comma and a space.  Taking a snapshot never mutates
    /// the table, so within one run repeated snapshots render the same
    /// entries in the same order.
    pub fn format(&self) -> (s: String)
        ensures
            s@ == spec_render(self.table()),
    {
        let s = render_from(&self.counts, 0);
        proof {
            assert(table_model(self.counts@).skip(0) =~= self.table());
        }
        s
    }

    /// The total number of units counted so far: the sum of all counts.
    pub fn total(&self) -> (total: u64)
        ensures
            total as int == spec_total(self.table()),
    {
        proof {
            use_type_invariant(self);
            lemma_model_nonneg(self.counts@);
        }
        let ghost m = self.table();
        proof {
            assert(m.skip(0) =~= m);
        }
        let n: usize = self.counts.len();
        let mut acc: u64 = 0;
        let mut i: usize = 0;
        while i < n
            invariant
                m == self.table(),
                nonneg_counts(m),
                spec_total(m) <= u64::MAX,
                n == self.counts@.len(),
                i <= n,
                acc as int + spec_total(m.skip(i as int)) == spec_total(m),
            decreases n - i,
        {
            let e: (NalUnitType, u64) = self.counts[i];
            proof {
                assert(m.skip(i as int)[0] == m[i as int]);
                assert(m[i as int] == (e.0, e.1 as int));
                assert(m.skip(i as int).skip(1) =~= m.skip(i + 1 as int));
                assert(forall|k: int|
                    0 <= k < m.skip(i as int).len() ==> (#[trigger] m.skip(i as int)[k]) == m[k
                        + i]);
                assert(nonneg_counts(m.skip(i as int)));
                lemma_entry_le_total(m.skip(i as int), 0);
                lemma_total_nonneg(m.skip(i + 1 as int));
            }
            acc = acc + e.1;
            i = i + 1;
        }
        proof {
            assert(m.skip(n as int) =~= Seq::<(NalUnitType, int)>::empty());
        }
        acc
    }
}

} // verus!
