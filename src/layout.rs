use crate::arith::{is_pow2, lemma_pow2_positive, lemma_round_up_bounds, round_up};
use vstd::prelude::*;

verus! {

/// One member of an aggregate: its name, its size in bytes and the byte
/// boundary its address must sit on.
#[derive(Debug, PartialEq, Eq)]
pub struct FieldSpec {
    pub name: String,
    pub size: u64,
    pub align: u64,
}

/// The ordered members of an aggregate.
#[derive(Debug, PartialEq, Eq)]
pub struct AggregateSpec {
    pub fields: Vec<FieldSpec>,
}

/// How fields are placed.
#[derive(Clone, Copy, Debug, PartialEq, Eq, Structural)]
pub enum LayoutStrategy {
    /// In the given order, each field on its natural alignment.
    Declared,
    /// Reordered by descending alignment (then descending size, then given
    /// order), then placed as `Declared`.
    Optimized,
    /// In the given order with no padding at all.
    Packed,
}

/// Where one field landed.
#[derive(Debug, PartialEq, Eq)]
pub struct FieldLayout {
    pub name: String,
    pub offset: u64,
    pub size: u64,
}

/// The computed layout of an aggregate.
#[derive(Debug, PartialEq, Eq)]
pub struct AggregateLayout {
    pub fields: Vec<FieldLayout>,
    pub total_size: u64,
    pub align: u64,
}

/// Which constraint a field breaks.
#[derive(Clone, Copy, Debug, PartialEq, Eq, Structural)]
pub enum InvalidReason {
    NonPositiveSize,
    AlignmentNotPowerOfTwo,
}

#[derive(Debug, PartialEq, Eq)]
pub enum LayoutError {
    InvalidFieldSpec { field_name: String, reason: InvalidReason },
}

/// Mathematical model of a `FieldSpec`.
pub struct FieldModel {
    pub name: Seq<char>,
    pub size: nat,
    pub align: nat,
}

/// Mathematical model of a `FieldLayout`.
pub struct PlacedField {
    pub name: Seq<char>,
    pub offset: nat,
    pub size: nat,
}

/// Mathematical model of an `AggregateLayout`.
pub struct LayoutModel {
    pub fields: Seq<PlacedField>,
    pub total_size: nat,
    pub align: nat,
}

impl View for FieldSpec {
    type V = FieldModel;

    open spec fn view(&self) -> FieldModel {
        FieldModel { name: self.name@, size: self.size as nat, align: self.align as nat }
    }
}

impl View for AggregateSpec {
    type V = Seq<FieldModel>;

    open spec fn view(&self) -> Seq<FieldModel> {
        self.fields@.map_values(|f: FieldSpec| f@)
    }
}

impl View for FieldLayout {
    type V = PlacedField;

    open spec fn view(&self) -> PlacedField {
        PlacedField { name: self.name@, offset: self.offset as nat, size: self.size as nat }
    }
}

impl View for AggregateLayout {
    type V = LayoutModel;

    open spec fn view(&self) -> LayoutModel {
        LayoutModel {
            fields: self.fields@.map_values(|f: FieldLayout| f@),
            total_size: self.total_size as nat,
            align: self.align as nat,
        }
    }
}

impl View for LayoutError {
    type V = (Seq<char>, InvalidReason);

    open spec fn view(&self) -> (Seq<char>, InvalidReason) {
        match self {
            LayoutError::InvalidFieldSpec { field_name, reason } => (field_name@, *reason),
        }
    }
}

pub open spec fn models_of(v: Seq<FieldSpec>) -> Seq<FieldModel> {
    v.map_values(|f: FieldSpec| f@)
}

/// The model of a computation's outcome.
pub open spec fn outcome_model(r: Result<AggregateLayout, LayoutError>) -> Result<
    LayoutModel,
    (Seq<char>, InvalidReason),
> {
    match r {
        Ok(l) => Ok(l@),
        Err(e) => Err(e@),
    }
}

// ---------------------------------------------------------------- validity
pub open spec fn field_valid(f: FieldModel) -> bool {
    f.size >= 1 && is_pow2(f.align)
}

pub open spec fn all_valid(s: Seq<FieldModel>) -> bool {
    forall|i: int| 0 <= i < s.len() ==> field_valid(#[trigger] s[i])
}

/// The constraint an invalid field breaks; size is checked before alignment.
pub open spec fn reason_of(f: FieldModel) -> InvalidReason {
    if f.size == 0 {
        InvalidReason::NonPositiveSize
    } else {
        InvalidReason::AlignmentNotPowerOfTwo
    }
}

/// Index of the first invalid field at or after `i`, or `s.len()` if none.
pub open spec fn first_invalid_from(s: Seq<FieldModel>, i: int) -> int
    decreases s.len() - i,
{
    if i >= s.len() {
        s.len() as int
    } else if !field_valid(s[i]) {
        i
    } else {
        first_invalid_from(s, i + 1)
    }
}

// ---------------------------------------------------------------- sums and maxima
pub open spec fn sum_of(s: Seq<FieldModel>, f: spec_fn(FieldModel) -> nat) -> nat
    decreases s.len(),
{
    if s.len() == 0 {
        0
    } else {
        sum_of(s.drop_last(), f) + f(s.last())
    }
}

pub open spec fn size_of_field(f: FieldModel) -> nat {
    f.size
}

/// Room a field may need at most in any layout: its size, the padding in
/// front of it and its share of the trailing padding.
pub open spec fn field_extent(f: FieldModel) -> nat {
    f.size + 2 * f.align
}

pub open spec fn sum_sizes(s: Seq<FieldModel>) -> nat {
    sum_of(s, |f: FieldModel| size_of_field(f))
}

/// An upper bound on every number a layout of `s` holds.
pub open spec fn layout_bound(s: Seq<FieldModel>) -> nat {
    sum_of(s, |f: FieldModel| field_extent(f))
}

/// The largest alignment among the fields, or 1 when there are none.
pub open spec fn max_align(s: Seq<FieldModel>) -> nat
    decreases s.len(),
{
    if s.len() == 0 {
        1
    } else {
        let m = max_align(s.drop_last());
        if s.last().align > m {
            s.last().align
        } else {
            m
        }
    }
}

// ---------------------------------------------------------------- placement
/// Cursor after placing all of `s` in order on natural alignment.
pub open spec fn declared_end(s: Seq<FieldModel>) -> nat
    decreases s.len(),
{
    if s.len() == 0 {
        0
    } else {
        round_up(declared_end(s.drop_last()), s.last().align) + s.last().size
    }
}

pub open spec fn declared_offset(s: Seq<FieldModel>, i: int) -> nat {
    round_up(declared_end(s.take(i)), s[i].align)
}

pub open spec fn packed_offset(s: Seq<FieldModel>, i: int) -> nat {
    sum_sizes(s.take(i))
}

/// `x` goes in front of `e` in the optimised order.
pub open spec fn ranks_before(x: FieldModel, e: FieldModel) -> bool {
    x.align > e.align || (x.align == e.align && x.size > e.size)
}

/// First index at or after `i` in front of which `x` ranks, or `r.len()`.
pub open spec fn insert_pos(r: Seq<FieldModel>, x: FieldModel, i: int) -> int
    decreases r.len() - i,
{
    if i >= r.len() {
        r.len() as int
    } else if ranks_before(x, r[i]) {
        i
    } else {
        insert_pos(r, x, i + 1)
    }
}

/// `r` with `x` placed after every field that ranks no lower.
pub open spec fn insert_ranked(r: Seq<FieldModel>, x: FieldModel) -> Seq<FieldModel> {
    r.insert(insert_pos(r, x, 0), x)
}

/// Stable sort by descending alignment, then descending size.
pub open spec fn optimized_order(s: Seq<FieldModel>) -> Seq<FieldModel>
    decreases s.len(),
{
    if s.len() == 0 {
        s
    } else {
        insert_ranked(optimized_order(s.drop_last()), s.last())
    }
}

/// The order in which a strategy places the fields.
pub open spec fn placement_order(s: Seq<FieldModel>, strategy: LayoutStrategy) -> Seq<FieldModel> {
    match strategy {
        LayoutStrategy::Optimized => optimized_order(s),
        _ => s,
    }
}

/// The layout of a valid `s` under `strategy`.
pub open spec fn layout_of(s: Seq<FieldModel>, strategy: LayoutStrategy) -> LayoutModel {
    let o = placement_order(s, strategy);
    if strategy == LayoutStrategy::Packed {
        LayoutModel {
            fields: Seq::new(
                o.len(),
                |i: int| PlacedField { name: o[i].name, offset: packed_offset(o, i), size: o[i].size },
            ),
            total_size: sum_sizes(o),
            align: 1,
        }
    } else {
        LayoutModel {
            fields: Seq::new(
                o.len(),
                |i: int|
                    PlacedField { name: o[i].name, offset: declared_offset(o, i), size: o[i].size },
            ),
            total_size: round_up(declared_end(o), max_align(o)),
            align: max_align(o),
        }
    }
}

/// The outcome for any `s`: the first invalid field is reported, else the
/// layout.
pub open spec fn layout_result(s: Seq<FieldModel>, strategy: LayoutStrategy) -> Result<
    LayoutModel,
    (Seq<char>, InvalidReason),
> {
    let k = first_invalid_from(s, 0);
    if k < s.len() {
        Err((s[k].name, reason_of(s[k])))
    } else {
        Ok(layout_of(s, strategy))
    }
}

// ---------------------------------------------------------------- executable parts
/// Whether `a` is a power of two.
pub fn is_power_of_two(a: u64) -> (r: bool)
    ensures
        r == is_pow2(a as nat),
{
    if a == 0 {
        return false;
    }
    let mut x: u64 = a;
    while x > 1 && x % 2 == 0
        invariant
            x >= 1,
            is_pow2(x as nat) == is_pow2(a as nat),
        decreases x,
    {
        x = x / 2;
    }
    x == 1
}

/// `c` rounded up to a multiple of `a`.
pub fn round_up_to(c: u64, a: u64) -> (r: u64)
    requires
        a >= 1,
        round_up(c as nat, a as nat) <= u64::MAX,
    ensures
        r == round_up(c as nat, a as nat),
{
    let rem = c % a;
    if rem == 0 {
        c
    } else {
        c + (a - rem)
    }
}


// ---------------------------------------------------------------- supporting facts
pub proof fn lemma_sum_prefix_le(s: Seq<FieldModel>, i: int, f: spec_fn(FieldModel) -> nat)
    requires
        0 <= i <= s.len(),
    ensures
        sum_of(s.take(i), f) <= sum_of(s, f),
    decreases s.len(),
{
    if i < s.len() {
        assert(s.drop_last().take(i) =~= s.take(i));
        lemma_sum_prefix_le(s.drop_last(), i, f);
    } else {
        assert(s.take(i) =~= s);
    }
}

/// Placing `s` in order never passes its bound.
pub proof fn lemma_declared_within_bound(s: Seq<FieldModel>)
    requires
        forall|i: int| 0 <= i < s.len() ==> (#[trigger] s[i]).align >= 1,
    ensures
        declared_end(s) + max_align(s) <= layout_bound(s) + 1,
        max_align(s) >= 1,
    decreases s.len(),
{
    if s.len() > 0 {
        let p = s.drop_last();
        lemma_declared_within_bound(p);
        lemma_round_up_bounds(declared_end(p), s.last().align);
    }
}

pub proof fn lemma_take_next(s: Seq<FieldModel>, i: int)
    requires
        0 <= i < s.len(),
    ensures
        s.take(i + 1).drop_last() == s.take(i),
        s.take(i + 1).last() == s[i],
{
    assert(s.take(i + 1).drop_last() =~= s.take(i));
}

// ---------------------------------------------------------------- placement code
/// Places `fields` in order, each on its natural alignment.
fn place_declared(fields: &Vec<FieldSpec>) -> (r: AggregateLayout)
    requires
        all_valid(models_of(fields@)),
        layout_bound(models_of(fields@)) <= u64::MAX,
    ensures
        r@ == layout_of(models_of(fields@), LayoutStrategy::Declared),
{
    let n = fields.len();
    let ghost s = models_of(fields@);
    let mut out: Vec<FieldLayout> = Vec::new();
    let mut cursor: u64 = 0;
    let mut m: u64 = 1;
    let mut i: usize = 0;
    while i < n
        invariant
            n == fields@.len(),
            s == models_of(fields@),
            all_valid(s),
            layout_bound(s) <= u64::MAX,
            0 <= i <= n,
            cursor == declared_end(s.take(i as int)),
            m == max_align(s.take(i as int)),
            out@.len() == i,
            forall|k: int|
                0 <= k < i ==> (#[trigger] out@[k])@ == (PlacedField {
                    name: s[k].name,
                    offset: declared_offset(s, k),
                    size: s[k].size,
                }),
        decreases n - i,
    {
        let f = &fields[i];
        proof {
            assert(field_valid(s[i as int]));
            lemma_pow2_positive(f.align as nat);
            lemma_take_next(s, i as int);
            let t = s.take(i as int + 1);
            assert forall|k: int| 0 <= k < t.len() implies (#[trigger] t[k]).align >= 1 by {
                assert(field_valid(s[k]));
                lemma_pow2_positive(s[k].align);
            }
            lemma_declared_within_bound(t);
            lemma_sum_prefix_le(s, i as int + 1, |f: FieldModel| field_extent(f));
            lemma_round_up_bounds(cursor as nat, f.align as nat);
        }
        let off = round_up_to(cursor, f.align);
        cursor = off + f.size;
        if f.align > m {
            m = f.align;
        }
        out.push(FieldLayout { name: f.name.clone(), offset: off, size: f.size });
        i += 1;
    }
    proof {
        assert(s.take(n as int) =~= s);
        assert forall|k: int| 0 <= k < s.len() implies (#[trigger] s[k]).align >= 1 by {
            assert(field_valid(s[k]));
            lemma_pow2_positive(s[k].align);
        }
        lemma_declared_within_bound(s);
        lemma_round_up_bounds(cursor as nat, m as nat);
    }
    let total = round_up_to(cursor, m);
    let r = AggregateLayout { fields: out, total_size: total, align: m };
    assert(r@.fields =~= layout_of(s, LayoutStrategy::Declared).fields);
    r
}


pub proof fn lemma_sizes_within_bound(s: Seq<FieldModel>)
    ensures
        sum_sizes(s) <= layout_bound(s),
    decreases s.len(),
{
    if s.len() > 0 {
        lemma_sizes_within_bound(s.drop_last());
    }
}

/// `insert_pos` finds the first field at or after `i` that `x` ranks before.
pub proof fn lemma_insert_pos(r: Seq<FieldModel>, x: FieldModel, i: int)
    requires
        0 <= i <= r.len(),
    ensures
        i <= insert_pos(r, x, i) <= r.len(),
        forall|k: int| i <= k < insert_pos(r, x, i) ==> !ranks_before(x, #[trigger] r[k]),
        insert_pos(r, x, i) < r.len() ==> ranks_before(x, r[insert_pos(r, x, i)]),
    decreases r.len() - i,
{
    if i < r.len() && !ranks_before(x, r[i]) {
        lemma_insert_pos(r, x, i + 1);
    }
}

pub proof fn lemma_insert_sum(r: Seq<FieldModel>, p: int, x: FieldModel, f: spec_fn(FieldModel) -> nat)
    requires
        0 <= p <= r.len(),
    ensures
        sum_of(r.insert(p, x), f) == sum_of(r, f) + f(x),
    decreases r.len(),
{
    if p == r.len() {
        assert(r.insert(p, x).drop_last() =~= r);
    } else {
        assert(r.insert(p, x).drop_last() =~= r.drop_last().insert(p, x));
        lemma_insert_sum(r.drop_last(), p, x, f);
    }
}

pub proof fn lemma_insert_max(r: Seq<FieldModel>, p: int, x: FieldModel)
    requires
        0 <= p <= r.len(),
    ensures
        max_align(r.insert(p, x)) == if x.align > max_align(r) {
            x.align
        } else {
            max_align(r)
        },
    decreases r.len(),
{
    if p == r.len() {
        assert(r.insert(p, x).drop_last() =~= r);
    } else {
        assert(r.insert(p, x).drop_last() =~= r.drop_last().insert(p, x));
        lemma_insert_max(r.drop_last(), p, x);
    }
}

/// Every field of `r.insert(p, x)` is `x` or a field of `r`.
pub proof fn lemma_insert_fields(r: Seq<FieldModel>, p: int, x: FieldModel)
    requires
        0 <= p <= r.len(),
    ensures
        forall|k: int|
            0 <= k < r.len() + 1 ==> #[trigger] r.insert(p, x)[k] == x || r.contains(
                r.insert(p, x)[k],
            ),
{
    assert forall|k: int| 0 <= k < r.len() + 1 implies #[trigger] r.insert(p, x)[k] == x
        || r.contains(r.insert(p, x)[k]) by {
        if k < p {
            assert(r.insert(p, x)[k] == r[k]);
        } else if k > p {
            assert(r.insert(p, x)[k] == r[k - 1]);
        }
    }
}

/// The optimised order is a rearrangement: same length, same sums, same
/// largest alignment, and only fields of `s`.
pub proof fn lemma_order_rearranges(s: Seq<FieldModel>, f: spec_fn(FieldModel) -> nat)
    ensures
        optimized_order(s).len() == s.len(),
        sum_of(optimized_order(s), f) == sum_of(s, f),
        max_align(optimized_order(s)) == max_align(s),
        forall|k: int|
            0 <= k < s.len() ==> s.contains(#[trigger] optimized_order(s)[k]),
    decreases s.len(),
{
    if s.len() > 0 {
        let p = s.drop_last();
        let r = optimized_order(p);
        let x = s.last();
        lemma_order_rearranges(p, f);
        lemma_insert_pos(r, x, 0);
        let q = insert_pos(r, x, 0);
        lemma_insert_sum(r, q, x, f);
        lemma_insert_max(r, q, x);
        lemma_insert_fields(r, q, x);
        let o = optimized_order(s);
        assert forall|k: int| 0 <= k < s.len() implies s.contains(#[trigger] o[k]) by {
            if o[k] == x {
                assert(s[s.len() - 1] == x);
            } else {
                assert(r.contains(o[k]));
                let j = choose|j: int| 0 <= j < r.len() && r[j] == o[k];
                assert(p.contains(r[j]));
                let j2 = choose|j2: int| 0 <= j2 < p.len() && p[j2] == r[j];
                assert(s[j2] == p[j2]);
            }
        }
    }
}

/// Every field of the optimised order is valid when every field of `s` is.
pub proof fn lemma_order_valid(s: Seq<FieldModel>)
    requires
        all_valid(s),
    ensures
        all_valid(optimized_order(s)),
        layout_bound(optimized_order(s)) == layout_bound(s),
{
    lemma_order_rearranges(s, |f: FieldModel| field_extent(f));
    let o = optimized_order(s);
    assert forall|k: int| 0 <= k < o.len() implies field_valid(#[trigger] o[k]) by {
        assert(s.contains(o[k]));
    }
}

/// Places `fields` in order with no padding.
fn place_packed(fields: &Vec<FieldSpec>) -> (r: AggregateLayout)
    requires
        layout_bound(models_of(fields@)) <= u64::MAX,
    ensures
        r@ == layout_of(models_of(fields@), LayoutStrategy::Packed),
{
    let n = fields.len();
    let ghost s = models_of(fields@);
    let mut out: Vec<FieldLayout> = Vec::new();
    let mut cursor: u64 = 0;
    let mut i: usize = 0;
    while i < n
        invariant
            n == fields@.len(),
            s == models_of(fields@),
            layout_bound(s) <= u64::MAX,
            0 <= i <= n,
            cursor == sum_sizes(s.take(i as int)),
            out@.len() == i,
            forall|k: int|
                0 <= k < i ==> (#[trigger] out@[k])@ == (PlacedField {
                    name: s[k].name,
                    offset: packed_offset(s, k),
                    size: s[k].size,
                }),
        decreases n - i,
    {
        let f = &fields[i];
        proof {
            lemma_take_next(s, i as int);
            lemma_sizes_within_bound(s.take(i as int + 1));
            lemma_sum_prefix_le(s, i as int + 1, |f: FieldModel| field_extent(f));
        }
        out.push(FieldLayout { name: f.name.clone(), offset: cursor, size: f.size });
        cursor = cursor + f.size;
        i += 1;
    }
    proof {
        assert(s.take(n as int) =~= s);
    }
    let r = AggregateLayout { fields: out, total_size: cursor, align: 1 };
    assert(r@.fields =~= layout_of(s, LayoutStrategy::Packed).fields);
    r
}

/// The fields of `fields` in the optimised order.
fn order_optimized(fields: &Vec<FieldSpec>) -> (r: Vec<FieldSpec>)
    ensures
        models_of(r@) == optimized_order(models_of(fields@)),
{
    let n = fields.len();
    let ghost s = models_of(fields@);
    let mut ord: Vec<FieldSpec> = Vec::new();
    let mut i: usize = 0;
    proof {
        assert(s.take(0) =~= Seq::<FieldModel>::empty());
        assert(models_of(ord@) =~= Seq::<FieldModel>::empty());
    }
    while i < n
        invariant
            n == fields@.len(),
            s == models_of(fields@),
            0 <= i <= n,
            models_of(ord@) == optimized_order(s.take(i as int)),
        decreases n - i,
    {
        let f = &fields[i];
        let ghost r = models_of(ord@);
        let mut p: usize = 0;
        while p < ord.len() && !(f.align > ord[p].align || (f.align == ord[p].align && f.size
            > ord[p].size))
            invariant
                r == models_of(ord@),
                0 <= p <= ord@.len(),
                insert_pos(r, f@, p as int) == insert_pos(r, f@, 0),
            decreases ord@.len() - p,
        {
            p += 1;
        }
        ord.insert(p, FieldSpec { name: f.name.clone(), size: f.size, align: f.align });
        proof {
            lemma_take_next(s, i as int);
            assert(models_of(ord@) =~= r.insert(p as int, f@));
        }
        i += 1;
    }
    proof {
        assert(s.take(n as int) =~= s);
    }
    ord
}

/// Checks every field in order and reports the first invalid one.
fn check_fields(fields: &Vec<FieldSpec>) -> (r: Result<(), LayoutError>)
    ensures
        ({
            let s = models_of(fields@);
            let k = first_invalid_from(s, 0);
            match r {
                Ok(_) => k == s.len() && all_valid(s),
                Err(e) => k < s.len() && e@ == (s[k].name, reason_of(s[k])),
            }
        }),
{
    let n = fields.len();
    let ghost s = models_of(fields@);
    let mut i: usize = 0;
    while i < n
        invariant
            n == fields@.len(),
            s == models_of(fields@),
            0 <= i <= n,
            forall|j: int| 0 <= j < i ==> field_valid(#[trigger] s[j]),
            first_invalid_from(s, 0) == first_invalid_from(s, i as int),
        decreases n - i,
    {
        let f = &fields[i];
        if f.size == 0 {
            return Err(
                LayoutError::InvalidFieldSpec {
                    field_name: f.name.clone(),
                    reason: InvalidReason::NonPositiveSize,
                },
            );
        }
        if !is_power_of_two(f.align) {
            return Err(
                LayoutError::InvalidFieldSpec {
                    field_name: f.name.clone(),
                    reason: InvalidReason::AlignmentNotPowerOfTwo,
                },
            );
        }
        i += 1;
    }
    Ok(())
}

/// Computes where each field of `spec` lands under `strategy`, or reports the
/// first field whose size is zero or whose alignment is not a power of two.
pub fn compute_layout(spec: &AggregateSpec, strategy: LayoutStrategy) -> (r: Result<
    AggregateLayout,
    LayoutError,
>)
    requires
        layout_bound(spec@) <= u64::MAX,
    ensures
        outcome_model(r) == layout_result(spec@, strategy),
{
    let ghost s = spec@;
    match check_fields(&spec.fields) {
        Err(e) => {
            return Err(e);
        },
        Ok(_) => {},
    }
    match strategy {
        LayoutStrategy::Declared => Ok(place_declared(&spec.fields)),
        LayoutStrategy::Packed => Ok(place_packed(&spec.fields)),
        LayoutStrategy::Optimized => {
            let ord = order_optimized(&spec.fields);
            proof {
                lemma_order_valid(s);
            }
            Ok(place_declared(&ord))
        },
    }
}


// ---------------------------------------------------------------- fitting in u64
pub proof fn lemma_bound_push(s: Seq<FieldModel>, x: FieldModel)
    ensures
        layout_bound(s.push(x)) == layout_bound(s) + field_extent(x),
{
    assert(s.push(x).drop_last() =~= s);
}

/// Whether every number a layout of `spec` holds fits in a `u64`, which
/// `compute_layout` asks of its callers.
pub fn layout_fits(spec: &AggregateSpec) -> (r: bool)
    ensures
        r == (layout_bound(spec@) <= u64::MAX),
{
    let n = spec.fields.len();
    let ghost s = spec@;
    let mut total: u64 = 0;
    let mut i: usize = 0;
    while i < n
        invariant
            n == spec.fields@.len(),
            s == spec@,
            0 <= i <= n,
            total == layout_bound(s.take(i as int)),
        decreases n - i,
    {
        let f = &spec.fields[i];
        proof {
            lemma_take_next(s, i as int);
        }
        let extent = (f.size as u128) + 2 * (f.align as u128);
        if (total as u128) + extent > u64::MAX as u128 {
            proof {
                lemma_sum_prefix_le(s, i as int + 1, |f: FieldModel| field_extent(f));
            }
            return false;
        }
        total = ((total as u128) + extent) as u64;
        i += 1;
    }
    proof {
        assert(s.take(n as int) =~= s);
    }
    true
}

// ---------------------------------------------------------------- the record examples
pub open spec fn field_model(name: Seq<char>, size: nat, align: nat) -> FieldModel {
    FieldModel { name, size, align }
}

/// Model of a record `{ f1: u8, f2: u32, f3: u8, f4: u64 }`.
pub open spec fn record_model() -> Seq<FieldModel> {
    seq![
        field_model("f1"@, 1, 1),
        field_model("f2"@, 4, 4),
        field_model("f3"@, 1, 1),
        field_model("f4"@, 8, 8),
    ]
}

/// Model of a record `{ f1: u8, f2: u64 }`.
pub open spec fn pair_model() -> Seq<FieldModel> {
    seq![field_model("f1"@, 1, 1), field_model("f2"@, 8, 8)]
}

fn field(name: &str, size: u64, align: u64) -> (r: FieldSpec)
    ensures
        r@ == field_model(name@, size as nat, align as nat),
{
    FieldSpec { name: name.to_owned(), size, align }
}

/// The fields of a record `{ f1: u8, f2: u32, f3: u8, f4: u64 }`.
pub fn record_fields() -> (r: AggregateSpec)
    ensures
        r@ == record_model(),
        all_valid(r@),
        layout_bound(r@) == 42,
{
    let mut v: Vec<FieldSpec> = Vec::new();
    v.push(field("f1", 1, 1));
    v.push(field("f2", 4, 4));
    v.push(field("f3", 1, 1));
    v.push(field("f4", 8, 8));
    let r = AggregateSpec { fields: v };
    proof {
        let m = record_model();
        assert(r@ =~= m);
        reveal_with_fuel(is_pow2, 4);
        assert(is_pow2(8) && is_pow2(4) && is_pow2(2) && is_pow2(1));
        assert(field_valid(m[0]) && field_valid(m[1]) && field_valid(m[2]) && field_valid(m[3]));
        let e = Seq::<FieldModel>::empty();
        lemma_bound_push(e, m[0]);
        lemma_bound_push(e.push(m[0]), m[1]);
        lemma_bound_push(e.push(m[0]).push(m[1]), m[2]);
        lemma_bound_push(e.push(m[0]).push(m[1]).push(m[2]), m[3]);
        assert(e.push(m[0]).push(m[1]).push(m[2]).push(m[3]) =~= m);
    }
    r
}

/// The fields of a record `{ f1: u8, f2: u64 }`.
pub fn pair_fields() -> (r: AggregateSpec)
    ensures
        r@ == pair_model(),
        all_valid(r@),
        layout_bound(r@) == 27,
{
    let mut v: Vec<FieldSpec> = Vec::new();
    v.push(field("f1", 1, 1));
    v.push(field("f2", 8, 8));
    let r = AggregateSpec { fields: v };
    proof {
        let m = pair_model();
        assert(r@ =~= m);
        reveal_with_fuel(is_pow2, 4);
        assert(is_pow2(8) && is_pow2(1));
        assert(field_valid(m[0]) && field_valid(m[1]));
        let e = Seq::<FieldModel>::empty();
        lemma_bound_push(e, m[0]);
        lemma_bound_push(e.push(m[0]), m[1]);
        assert(e.push(m[0]).push(m[1]) =~= m);
    }
    r
}

pub proof fn lemma_all_valid_first_invalid(s: Seq<FieldModel>, i: int)
    requires
        all_valid(s),
        0 <= i <= s.len(),
    ensures
        first_invalid_from(s, i) == s.len(),
    decreases s.len() - i,
{
    if i < s.len() {
        lemma_all_valid_first_invalid(s, i + 1);
    }
}

/// Layout of valid fields that fit; never fails.
fn layout_valid(spec: &AggregateSpec, strategy: LayoutStrategy) -> (r: AggregateLayout)
    requires
        all_valid(spec@),
        layout_bound(spec@) <= u64::MAX,
    ensures
        r@ == layout_of(spec@, strategy),
{
    proof {
        lemma_all_valid_first_invalid(spec@, 0);
    }
    match compute_layout(spec, strategy) {
        Ok(l) => l,
        Err(_) => unreached(),
    }
}

/// The record `{ f1: u8, f2: u32, f3: u8, f4: u64 }` laid out in declaration
/// order, reordered, and packed.
pub fn memory_layout() -> (r: (AggregateLayout, AggregateLayout, AggregateLayout))
    ensures
        r.0@ == layout_of(record_model(), LayoutStrategy::Declared),
        r.1@ == layout_of(record_model(), LayoutStrategy::Optimized),
        r.2@ == layout_of(record_model(), LayoutStrategy::Packed),
{
    let spec = record_fields();
    let c = layout_valid(&spec, LayoutStrategy::Declared);
    let o = layout_valid(&spec, LayoutStrategy::Optimized);
    let p = layout_valid(&spec, LayoutStrategy::Packed);
    (c, o, p)
}

/// Where each of `count` elements of size `stride` starts in an array:
/// elements follow one another with no gap.
pub fn element_offsets(stride: u64, count: u64) -> (r: Vec<u64>)
    requires
        stride * count <= u64::MAX,
    ensures
        r@.len() == count,
        forall|i: int| 0 <= i < count ==> r@[i] == i * stride,
{
    let mut out: Vec<u64> = Vec::new();
    let mut i: u64 = 0;
    while i < count
        invariant
            0 <= i <= count,
            stride * count <= u64::MAX,
            out@.len() == i,
            forall|k: int| 0 <= k < i ==> out@[k] == k * stride,
        decreases count - i,
    {
        assert(i * stride <= stride * count) by (nonlinear_arith)
            requires
                i < count,
        ;
        out.push(i * stride);
        i += 1;
    }
    out
}

/// Where each element of a three-element array of `{ f1: u8, f2: u64 }`
/// starts: each element takes the record's whole padded size.
pub fn array_layout() -> (r: Vec<u64>)
    ensures
        r@.len() == 3,
        forall|i: int|
            0 <= i < 3 ==> r@[i] == i * layout_of(pair_model(), LayoutStrategy::Declared).total_size,
{
    let spec = pair_fields();
    let l = layout_valid(&spec, LayoutStrategy::Declared);
    proof {
        let s = spec@;
        lemma_declared_within_bound(s);
        lemma_round_up_bounds(declared_end(s), max_align(s));
        assert(l.total_size <= 27);
    }
    element_offsets(l.total_size, 3)
}

/// A tagged union with a one-byte and an eight-byte payload.
#[derive(Clone, Copy, Debug, PartialEq, Eq, Structural)]
pub enum TwoVariants {
    V1(u8),
    V2(u64),
}

/// One value of each variant of a tagged union.
pub fn enumeration_layout() -> (r: (TwoVariants, TwoVariants))
    ensures
        r == (TwoVariants::V1(1), TwoVariants::V2(1)),
{
    let a = TwoVariants::V1(1);
    let b = TwoVariants::V2(1);
    (a, b)
}

} // verus!
