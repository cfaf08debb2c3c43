//! Properties that every layout computed by this crate has.
use crate::arith::{
    lemma_divides_add, lemma_divides_trans, lemma_pow2_divides, lemma_pow2_positive,
    lemma_round_up_bounds, lemma_round_up_monotone,
};
use crate::layout::{
    all_valid, declared_end, insert_pos, insert_ranked, layout_of, layout_result,
    lemma_insert_pos, lemma_order_rearranges, lemma_order_valid, lemma_take_next, max_align,
    optimized_order, outcome_model, size_of_field, sum_sizes, AggregateLayout, FieldModel,
    LayoutError, LayoutStrategy,
};
use vstd::prelude::*;

verus! {

/// Fields ordered by non-increasing alignment.
pub open spec fn aligns_descending(s: Seq<FieldModel>) -> bool {
    forall|i: int, j: int| 0 <= i < j < s.len() ==> s[i].align >= s[j].align
}

/// Every field's size is a whole number of its alignment, as for the types
/// of the language.
pub open spec fn sizes_fill_alignment(s: Seq<FieldModel>) -> bool {
    forall|i: int| 0 <= i < s.len() ==> (#[trigger] s[i]).size % s[i].align == 0
}

proof fn lemma_aligns_positive(s: Seq<FieldModel>)
    requires
        all_valid(s),
    ensures
        forall|i: int| 0 <= i < s.len() ==> (#[trigger] s[i]).align >= 1,
{
    assert forall|i: int| 0 <= i < s.len() implies (#[trigger] s[i]).align >= 1 by {
        lemma_pow2_positive(s[i].align);
    }
}

/// The cursor only moves forward as fields are placed.
proof fn lemma_end_grows(s: Seq<FieldModel>, i: int, j: int)
    requires
        all_valid(s),
        0 <= i <= j <= s.len(),
    ensures
        declared_end(s.take(i)) <= declared_end(s.take(j)),
    decreases j - i,
{
    if i < j {
        lemma_end_grows(s, i, j - 1);
        lemma_take_next(s, j - 1);
        lemma_pow2_positive(s[j - 1].align);
        lemma_round_up_bounds(declared_end(s.take(j - 1)), s[j - 1].align);
    }
}

/// In declaration order, offsets never decrease, each offset is a multiple of
/// its field's alignment, no two fields overlap, and the total size is a
/// multiple of the aggregate's alignment that holds every field.
pub proof fn lemma_declared_placement(s: Seq<FieldModel>)
    requires
        all_valid(s),
    ensures
        ({
            let l = layout_of(s, LayoutStrategy::Declared);
            &&& l.fields.len() == s.len()
            &&& forall|i: int|
                0 <= i < s.len() ==> (#[trigger] l.fields[i]).offset % s[i].align == 0
            &&& forall|i: int, j: int|
                0 <= i < j < s.len() ==> l.fields[i].offset <= l.fields[j].offset
                    && l.fields[i].offset + l.fields[i].size <= l.fields[j].offset
            &&& l.total_size % l.align == 0
            &&& forall|i: int|
                0 <= i < s.len() ==> (#[trigger] l.fields[i]).offset + l.fields[i].size
                    <= l.total_size
        }),
{
    let l = layout_of(s, LayoutStrategy::Declared);
    lemma_aligns_positive(s);
    assert forall|i: int| 0 <= i < s.len() implies (#[trigger] l.fields[i]).offset % s[i].align
        == 0 by {
        lemma_round_up_bounds(declared_end(s.take(i)), s[i].align);
    }
    assert forall|i: int, j: int| 0 <= i < j < s.len() implies l.fields[i].offset
        <= l.fields[j].offset && l.fields[i].offset + l.fields[i].size <= l.fields[j].offset by {
        lemma_take_next(s, i);
        lemma_end_grows(s, i + 1, j);
        lemma_round_up_bounds(declared_end(s.take(j)), s[j].align);
    }
    assert(s.take(s.len() as int) =~= s);
    lemma_max_align_positive(s);
    lemma_round_up_bounds(declared_end(s), max_align(s));
    assert forall|i: int| 0 <= i < s.len() implies (#[trigger] l.fields[i]).offset
        + l.fields[i].size <= l.total_size by {
        lemma_take_next(s, i);
        lemma_end_grows(s, i + 1, s.len() as int);
    }
}

proof fn lemma_max_align_positive(s: Seq<FieldModel>)
    ensures
        max_align(s) >= 1,
    decreases s.len(),
{
    if s.len() > 0 {
        lemma_max_align_positive(s.drop_last());
    }
}

/// Inserting a field where it ranks keeps alignments descending.
proof fn lemma_insert_keeps_descending(r: Seq<FieldModel>, x: FieldModel)
    requires
        aligns_descending(r),
    ensures
        aligns_descending(insert_ranked(r, x)),
{
    lemma_insert_pos(r, x, 0);
    let p = insert_pos(r, x, 0);
    let t = r.insert(p, x);
    assert forall|i: int, j: int| 0 <= i < j < t.len() implies t[i].align >= t[j].align by {
        if j < p {
        } else if j == p {
            assert(t[i] == r[i]);
        } else if i < p {
            assert(t[i] == r[i]);
            assert(t[j] == r[j - 1]);
        } else if i == p {
            assert(t[j] == r[j - 1]);
            assert(r[p].align >= r[j - 1].align || p == j - 1);
        } else {
            assert(t[i] == r[i - 1]);
            assert(t[j] == r[j - 1]);
        }
    }
}

/// The optimised order has non-increasing alignments.
pub proof fn lemma_optimized_descending(s: Seq<FieldModel>)
    ensures
        aligns_descending(optimized_order(s)),
    decreases s.len(),
{
    if s.len() > 0 {
        lemma_optimized_descending(s.drop_last());
        lemma_insert_keeps_descending(optimized_order(s.drop_last()), s.last());
    }
}

proof fn lemma_sum_divisible(s: Seq<FieldModel>, d: nat)
    requires
        d >= 1,
        forall|i: int| 0 <= i < s.len() ==> (#[trigger] s[i]).size % d == 0,
    ensures
        sum_sizes(s) % d == 0,
    decreases s.len(),
{
    if s.len() > 0 {
        lemma_sum_divisible(s.drop_last(), d);
        lemma_divides_add(d, sum_sizes(s.drop_last()), s.last().size);
        assert(sum_sizes(s) == sum_sizes(s.drop_last()) + s.last().size);
    } else {
        assert(0nat % d == 0) by (nonlinear_arith)
            requires
                d >= 1,
        ;
    }
}

/// With descending power-of-two alignments and sizes that fill them, no
/// padding is ever inserted between fields.
proof fn lemma_descending_no_padding(s: Seq<FieldModel>)
    requires
        all_valid(s),
        aligns_descending(s),
        sizes_fill_alignment(s),
    ensures
        declared_end(s) == sum_sizes(s),
    decreases s.len(),
{
    if s.len() > 0 {
        let p = s.drop_last();
        let a = s.last().align;
        lemma_descending_no_padding(p);
        lemma_pow2_positive(a);
        assert forall|i: int| 0 <= i < p.len() implies (#[trigger] p[i]).size % a == 0 by {
            assert(s[i] == p[i]);
            lemma_pow2_divides(a, p[i].align);
            lemma_pow2_positive(p[i].align);
            lemma_divides_trans(a, p[i].align, p[i].size);
        }
        lemma_sum_divisible(p, a);
    }
}

proof fn lemma_end_at_least_sum(s: Seq<FieldModel>)
    requires
        all_valid(s),
    ensures
        sum_sizes(s) <= declared_end(s),
    decreases s.len(),
{
    if s.len() > 0 {
        let p = s.drop_last();
        lemma_end_at_least_sum(p);
        lemma_pow2_positive(s.last().align);
        lemma_round_up_bounds(declared_end(p), s.last().align);
    }
}

/// Reordering by descending alignment never gives a larger total size than
/// declaration order, for fields whose sizes are whole multiples of their
/// alignments.
pub proof fn lemma_optimized_never_larger(s: Seq<FieldModel>)
    requires
        all_valid(s),
        sizes_fill_alignment(s),
    ensures
        layout_of(s, LayoutStrategy::Optimized).total_size <= layout_of(
            s,
            LayoutStrategy::Declared,
        ).total_size,
{
    let o = optimized_order(s);
    lemma_order_valid(s);
    lemma_order_rearranges(s, |f: FieldModel| size_of_field(f));
    assert(sum_sizes(o) == sum_sizes(s));
    assert forall|i: int| 0 <= i < o.len() implies (#[trigger] o[i]).size % o[i].align == 0 by {
        assert(s.contains(o[i]));
    }
    lemma_optimized_descending(s);
    lemma_descending_no_padding(o);
    lemma_end_at_least_sum(s);
    lemma_max_align_positive(s);
    lemma_round_up_monotone(sum_sizes(s), declared_end(s), max_align(s));
}

/// The optimised layout is the declaration-order layout of the reordered
/// fields, so it too has aligned, disjoint fields and a total size that is a
/// multiple of its alignment.
pub proof fn lemma_optimized_placement(s: Seq<FieldModel>)
    requires
        all_valid(s),
    ensures
        layout_of(s, LayoutStrategy::Optimized) == layout_of(
            optimized_order(s),
            LayoutStrategy::Declared,
        ),
        ({
            let o = optimized_order(s);
            let l = layout_of(s, LayoutStrategy::Optimized);
            &&& l.fields.len() == s.len()
            &&& forall|i: int|
                0 <= i < o.len() ==> (#[trigger] l.fields[i]).offset % o[i].align == 0
            &&& forall|i: int, j: int|
                0 <= i < j < o.len() ==> l.fields[i].offset + l.fields[i].size
                    <= l.fields[j].offset
            &&& l.total_size % l.align == 0
        }),
{
    lemma_order_valid(s);
    lemma_order_rearranges(s, |f: FieldModel| size_of_field(f));
    lemma_declared_placement(optimized_order(s));
}

/// A packed layout is exactly as large as its fields together, with
/// alignment 1.
pub proof fn lemma_packed_total(s: Seq<FieldModel>)
    ensures
        layout_of(s, LayoutStrategy::Packed).total_size == sum_sizes(s),
        layout_of(s, LayoutStrategy::Packed).align == 1,
{
}

/// Two computations on the same fields and strategy have the same outcome.
pub proof fn lemma_layout_deterministic(
    s: Seq<FieldModel>,
    strategy: LayoutStrategy,
    r1: Result<AggregateLayout, LayoutError>,
    r2: Result<AggregateLayout, LayoutError>,
)
    requires
        outcome_model(r1) == layout_result(s, strategy),
        outcome_model(r2) == layout_result(s, strategy),
    ensures
        outcome_model(r1) == outcome_model(r2),
{
}

} // verus!
