//! Reverse index from sketch values to the set of sequences holding them.

use vstd::prelude::*;
use std::collections::HashSet;
use dashmap::DashMap;
use fixedbitset::FixedBitSet;
use rayon::iter::{IntoParallelRefIterator, ParallelIterator};
use rustc_hash::FxBuildHasher;
use crate::errors::BioError;
use crate::sketch::Sketcher;

verus! {

broadcast use vstd::std_specs::hash::group_hash_axioms;

#[verifier::external_type_specification]
#[verifier::external_body]
pub struct ExFixedBitSet(FixedBitSet);

#[verifier::external_type_specification]
#[verifier::external_body]
pub struct ExFxBuildHasher(FxBuildHasher);

#[verifier::external_type_specification]
#[verifier::external_body]
#[verifier::reject_recursive_types(K)]
#[verifier::reject_recursive_types(V)]
#[verifier::reject_recursive_types(S)]
pub struct ExDashMap<K, V, S>(DashMap<K, V, S>);

/// Map from sketch value to the bitset of the sequences that hold it.
pub type ReverseIndex = DashMap<u64, FixedBitSet, FxBuildHasher>;

/// Positions whose bit is set in a bitset.
pub uninterp spec fn bitset_members(b: FixedBitSet) -> Set<nat>;

/// Number of bits a bitset was made with.
pub uninterp spec fn bitset_width(b: FixedBitSet) -> nat;

/// For each key of the index, the positions set in its bitset.
pub uninterp spec fn index_members(m: ReverseIndex) -> Map<u64, Set<nat>>;

/// For each key of the index, the width of its bitset.
pub uninterp spec fn index_widths(m: ReverseIndex) -> Map<u64, nat>;

/// Relies on FixedBitSet::with_capacity: a bitset of `bits` bits, all clear.
#[verifier::external_body]
fn new_bitset(bits: usize) -> (b: FixedBitSet)
    ensures
        bitset_members(b) == Set::<nat>::empty(),
        bitset_width(b) == bits,
{
    FixedBitSet::with_capacity(bits)
}

/// Relies on FixedBitSet::len: the width in bits.
#[verifier::external_body]
fn bitset_len(b: &FixedBitSet) -> (r: usize)
    ensures
        r == bitset_width(*b),
{
    b.len()
}

/// Relies on FixedBitSet::set with `enabled == true`: bit `i` turns on and
/// the width is kept. The call panics for `i` past the width.
#[verifier::external_body]
fn bitset_set(b: &mut FixedBitSet, i: usize)
    requires
        i < bitset_width(*old(b)),
    ensures
        bitset_members(*final(b)) == bitset_members(*old(b)).insert(i as nat),
        bitset_width(*final(b)) == bitset_width(*old(b)),
{
    b.set(i, true)
}

/// Sets bit `i` of `b` when it lies within the width.
pub fn mark_member(b: &mut FixedBitSet, i: usize)
    ensures
        bitset_members(*final(b)) == if i < bitset_width(*old(b)) {
            bitset_members(*old(b)).insert(i as nat)
        } else {
            bitset_members(*old(b))
        },
        bitset_width(*final(b)) == bitset_width(*old(b)),
{
    if i < bitset_len(b) {
        bitset_set(b, i);
    }
}

/// A bitset of `width` bits with only bit `i` set (none if `i` is past the
/// width).
pub fn singleton_bitset(width: usize, i: usize) -> (b: FixedBitSet)
    ensures
        bitset_width(b) == width,
        bitset_members(b) == if i < width {
            set![i as nat]
        } else {
            Set::<nat>::empty()
        },
{
    let mut b = new_bitset(width);
    mark_member(&mut b, i);
    proof {
        if i < width {
            assert(Set::<nat>::empty().insert(i as nat) =~= set![i as nat]);
        }
    }
    b
}

/// Members after marking position `i` under key `h`: an existing bitset
/// gains `i` if it is wide enough, a new key gets a bitset of `width` bits
/// holding `i`.
pub open spec fn members_after_mark(
    members: Map<u64, Set<nat>>,
    widths: Map<u64, nat>,
    h: u64,
    i: nat,
    width: nat,
) -> Map<u64, Set<nat>> {
    if members.contains_key(h) {
        if i < widths[h] {
            members.insert(h, members[h].insert(i))
        } else {
            members
        }
    } else {
        members.insert(
            h,
            if i < width {
                set![i]
            } else {
                Set::empty()
            },
        )
    }
}

/// Relies on DashMap::with_capacity_and_hasher with FxBuildHasher: a map with
/// no entries; the capacity only reserves room.
#[verifier::external_body]
fn new_index(capacity: usize) -> (m: ReverseIndex)
    ensures
        index_members(m).dom().is_empty(),
        index_widths(m).dom().is_empty(),
{
    DashMap::with_capacity_and_hasher(capacity, FxBuildHasher)
}

/// Relies on DashMap::entry with and_modify / or_insert_with: the bitset
/// stored under `h` is passed to `mark_member`, or, if there is none,
/// `singleton_bitset(width, i)` is stored under `h`.
#[verifier::external_body]
fn index_mark(m: &mut ReverseIndex, h: u64, i: usize, width: usize)
    ensures
        index_members(*final(m)) == members_after_mark(
            index_members(*old(m)),
            index_widths(*old(m)),
            h,
            i as nat,
            width as nat,
        ),
        index_widths(*final(m)) == if index_widths(*old(m)).contains_key(h) {
            index_widths(*old(m))
        } else {
            index_widths(*old(m)).insert(h, width as nat)
        },
{
    m.entry(h).and_modify(|b| mark_member(b, i)).or_insert_with(|| singleton_bitset(width, i));
}

/// Relies on rayon: `par_iter().map(..).collect()` into a `Vec` keeps the
/// order of `seqs`; each item is the verified `Sketcher::sketch` of its
/// sequence.
#[verifier::external_body]
fn sketch_all<S: Sketcher>(seqs: &[&[u8]], sketcher: &S) -> (r: Vec<HashSet<u64>>)
    requires
        forall|i: int| 0 <= i < seqs@.len() ==> sketcher.accepts(#[trigger] seqs@[i]@),
    ensures
        r@.len() == seqs@.len(),
        forall|i: int| 0 <= i < seqs@.len() ==> #[trigger] r@[i]@ == sketcher.sketch_view(seqs@[i]@),
{
    seqs.par_iter().map(|seq| sketcher.sketch(seq)).collect()
}

/// Positions of the sketches that hold `h`.
pub open spec fn holders(sketches: Seq<Set<u64>>, h: u64) -> Set<nat> {
    Set::new(|i: nat| i < sketches.len() && sketches[i as int].contains(h))
}

/// The reverse index of a list of sketches: each value held by some sketch
/// maps to the positions of the sketches that hold it.
pub open spec fn index_of(sketches: Seq<Set<u64>>) -> Map<u64, Set<nat>> {
    Map::new(
        |h: u64| exists|i: int| 0 <= i < sketches.len() && #[trigger] sketches[i].contains(h),
        |h: u64| holders(sketches, h),
    )
}

/// The sketches a strategy computes for each sequence of a batch.
pub open spec fn batch_sketches<S: Sketcher>(seqs: Seq<&[u8]>, sketcher: &S) -> Seq<Set<u64>> {
    Seq::new(seqs.len(), |i: int| sketcher.sketch_view(seqs[i]@))
}

/// Every key present in the index has a bitset of `width` bits.
pub open spec fn uniform_width(members: Map<u64, Set<nat>>, widths: Map<u64, nat>, width: nat) -> bool {
    &&& widths.dom() == members.dom()
    &&& forall|h: u64| #[trigger] widths.contains_key(h) ==> widths[h] == width
}

/// Marking position `sketches.len() - 1` under `h` in the index of
/// `sketches` adds `h` to the last sketch.
proof fn lemma_mark_extends_index(sketches: Seq<Set<u64>>, h: u64, width: nat, widths: Map<u64, nat>)
    requires
        sketches.len() >= 1,
        sketches.len() <= width,
        uniform_width(index_of(sketches), widths, width),
    ensures
        members_after_mark(index_of(sketches), widths, h, (sketches.len() - 1) as nat, width)
            =~= index_of(sketches.update(sketches.len() - 1, sketches.last().insert(h))),
{
    let n = sketches.len();
    let i = (n - 1) as nat;
    let after = sketches.update(n - 1, sketches.last().insert(h));
    let m = index_of(sketches);
    assert(after[n - 1].contains(h));
    assert forall|g: u64| #[trigger] m.contains_key(g) implies index_of(after).contains_key(g) by {
        let j = choose|j: int| 0 <= j < n && #[trigger] sketches[j].contains(g);
        assert(after[j].contains(g));
    }
    assert forall|g: u64| #[trigger] index_of(after).contains_key(g) && g != h implies m.contains_key(
        g,
    ) by {
        let j = choose|j: int| 0 <= j < n && #[trigger] after[j].contains(g);
        assert(sketches[j].contains(g));
    }
    assert forall|g: u64| #[trigger] index_of(after).contains_key(g) && g != h implies holders(
        after,
        g,
    ) =~= holders(sketches, g) by {}
    if m.contains_key(h) {
        assert(widths.contains_key(h));
        assert(holders(after, h) =~= holders(sketches, h).insert(i));
    } else {
        assert(holders(after, h) =~= set![i]);
    }
}

/// Builds a reverse index over `seqs`: each value of any sequence's sketch
/// maps to a bitset of `seqs.len()` bits with bit `i` set exactly when the
/// sketch of `seqs[i]` holds the value.
///
/// Sketches are computed in parallel on rayon's pool; each sequence's
/// positions are then marked in the index.
pub fn build_reverse_index<S: Sketcher>(seqs: &[&[u8]], sketcher: &S) -> (m: ReverseIndex)
    requires
        forall|i: int| 0 <= i < seqs@.len() ==> sketcher.accepts(#[trigger] seqs@[i]@),
    ensures
        index_members(m) == index_of(batch_sketches(seqs@, sketcher)),
        uniform_width(index_members(m), index_widths(m), seqs@.len()),
{
    let ghost all = batch_sketches(seqs@, sketcher);
    let num_seqs = seqs.len();
    let sketches = sketch_all(seqs, sketcher);
    let mut map = new_index(num_seqs);
    proof {
        assert(index_of(all.take(0)) =~= index_members(map));
        assert(index_widths(map).dom() =~= index_members(map).dom());
    }
    let mut i: usize = 0;
    while i < num_seqs
        invariant
            num_seqs == seqs@.len(),
            all == batch_sketches(seqs@, sketcher),
            sketches@.len() == num_seqs,
            forall|j: int| 0 <= j < num_seqs ==> #[trigger] sketches@[j]@ == all[j],
            i <= num_seqs,
            index_members(map) == index_of(all.take(i as int)),
            uniform_width(index_members(map), index_widths(map), num_seqs as nat),
        decreases num_seqs - i,
    {
        let sketch = &sketches[i];
        let ghost base = all.take(i as int);
        proof {
            assert forall|g: u64| #[trigger] index_of(base).contains_key(g) implies index_of(
                base.push(Set::<u64>::empty()),
            ).contains_key(g) by {
                let j = choose|j: int| 0 <= j < base.len() && #[trigger] base[j].contains(g);
                assert(base.push(Set::<u64>::empty())[j] == base[j]);
            }
            assert forall|g: u64| #[trigger] index_of(base.push(Set::<u64>::empty())).contains_key(
                g,
            ) implies index_of(base).contains_key(g) by {
                let j = choose|j: int|
                    0 <= j < base.len() + 1 && #[trigger] base.push(Set::<u64>::empty())[j].contains(
                        g,
                    );
                assert(base[j] == base.push(Set::<u64>::empty())[j]);
            }
            assert forall|g: u64| #[trigger] index_of(base).contains_key(g) implies holders(
                base.push(Set::<u64>::empty()),
                g,
            ) =~= holders(base, g) by {}
            assert(index_of(base) =~= index_of(base.push(Set::<u64>::empty())));
        }
        let ghost mut processed: Set<u64> = Set::empty();
        proof {
            assert(base.push(processed) =~= base.push(Set::<u64>::empty()));
        }
        for h in it: sketch.iter()
            invariant
                num_seqs == seqs@.len(),
                i < num_seqs,
                all.len() == num_seqs,
                base == all.take(i as int),
                it.seq().unref().to_set() == sketch@,
                processed == it.seq().take(it.index()).unref().to_set(),
                it.index() == it.seq().len() ==> processed == sketch@,
                index_members(map) == index_of(base.push(processed)),
                uniform_width(index_members(map), index_widths(map), num_seqs as nat),
        {
            let ghost cur = base.push(processed);
            proof {
                lemma_mark_extends_index(cur, *h, num_seqs as nat, index_widths(map));
                assert(cur.update(cur.len() - 1, processed.insert(*h)) =~= base.push(
                    processed.insert(*h),
                ));
                assert(it.seq().take(it.index() + 1).unref() =~= it.seq().take(
                    it.index(),
                ).unref().push(*h));
                it.seq().take(it.index()).unref().lemma_push_to_set_commute(*h);
                assert(it.index() + 1 == it.seq().len() ==> it.seq().take(it.index() + 1)
                    =~= it.seq());
            }
            let ghost old_widths = index_widths(map);
            index_mark(&mut map, *h, i, num_seqs);
            proof {
                processed = processed.insert(*h);
                assert(index_widths(map).dom() =~= index_members(map).dom());
                assert forall|g: u64| #[trigger] index_widths(map).contains_key(g) implies index_widths(
                    map,
                )[g] == num_seqs by {
                    if g != *h {
                        assert(old_widths.contains_key(g));
                    }
                }
            }
        }
        proof {
            assert(all.take(i + 1) =~= base.push(all[i as int]));
        }
        i += 1;
    }
    proof {
        assert(all.take(num_seqs as int) =~= all);
    }
    map
}

/// Renders the message for a sequence that a strategy does not accept.
///
/// Relies on std's `format!` to render the position.
#[verifier::external_body]
fn rejected_sequence_message(i: usize) -> String {
    format!("sequence {} is outside the sketch strategy's parameter domain.", i)
}

/// Builds the reverse index after checking every sequence against the
/// strategy's parameter domain; fails fast, before any index work, with
/// `InvalidParameterError` when some sequence is rejected.
pub fn try_build_reverse_index<S: Sketcher>(seqs: &[&[u8]], sketcher: &S) -> (r: Result<
    ReverseIndex,
    BioError,
>)
    ensures
        r is Ok <==> forall|i: int| 0 <= i < seqs@.len() ==> sketcher.accepts(#[trigger] seqs@[i]@),
        r matches Ok(m) ==> index_members(m) == index_of(batch_sketches(seqs@, sketcher))
            && uniform_width(index_members(m), index_widths(m), seqs@.len()),
        r matches Err(e) ==> e is InvalidParameterError,
{
    let mut i: usize = 0;
    while i < seqs.len()
        invariant
            i <= seqs@.len(),
            forall|j: int| 0 <= j < i ==> sketcher.accepts(#[trigger] seqs@[j]@),
        decreases seqs.len() - i,
    {
        if !sketcher.accepts_input(seqs[i]) {
            return Err(BioError::InvalidParameterError(rejected_sequence_message(i)));
        }
        i += 1;
    }
    Ok(build_reverse_index(seqs, sketcher))
}

/// Marks position `i` under value `h` in a membership map.
pub open spec fn mark(m: Map<u64, Set<nat>>, h: u64, i: nat) -> Map<u64, Set<nat>> {
    if m.contains_key(h) {
        m.insert(h, m[h].insert(i))
    } else {
        m.insert(h, set![i])
    }
}

/// The membership map left by applying the marks of `ops`, in order, to an
/// empty index.
pub open spec fn apply_marks(ops: Seq<(u64, nat)>) -> Map<u64, Set<nat>>
    decreases ops.len(),
{
    if ops.len() == 0 {
        Map::empty()
    } else {
        mark(apply_marks(ops.drop_last()), ops.last().0, ops.last().1)
    }
}

/// The membership map holding exactly the pairs of `ops`.
pub open spec fn marks_map(ops: Set<(u64, nat)>) -> Map<u64, Set<nat>> {
    Map::new(
        |h: u64| exists|i: nat| #[trigger] ops.contains((h, i)),
        |h: u64| Set::new(|i: nat| ops.contains((h, i))),
    )
}

proof fn lemma_apply_marks(ops: Seq<(u64, nat)>)
    ensures
        apply_marks(ops) =~= marks_map(ops.to_set()),
    decreases ops.len(),
{
    if ops.len() == 0 {
        assert(ops.to_set() =~= Set::<(u64, nat)>::empty());
    } else {
        let prev = ops.drop_last();
        let (h, i) = ops.last();
        lemma_apply_marks(prev);
        assert(prev.push(ops.last()) =~= ops);
        prev.lemma_push_to_set_commute(ops.last());
        let before = prev.to_set();
        let after = ops.to_set();
        assert(after == before.insert((h, i)));
        let m = marks_map(before);
        assert(marks_map(after).contains_key(h)) by {
            assert(after.contains((h, i)));
        }
        assert forall|g: u64| #[trigger] marks_map(after).contains_key(g) && g != h implies m.contains_key(g) by {
            let j = choose|j: nat| #[trigger] after.contains((g, j));
            assert(before.contains((g, j)));
        }
        assert forall|g: u64| #[trigger] m.contains_key(g) implies marks_map(after).contains_key(g) by {
            let j = choose|j: nat| #[trigger] before.contains((g, j));
            assert(after.contains((g, j)));
        }
        if m.contains_key(h) {
            assert(marks_map(after)[h] =~= m[h].insert(i));
        } else {
            assert forall|j: nat| !before.contains((h, j)) by {
                if before.contains((h, j)) {
                    assert(m.contains_key(h));
                }
            }
            assert(marks_map(after)[h] =~= set![i]);
        }
        assert forall|g: u64| #[trigger] m.contains_key(g) && g != h implies marks_map(after)[g]
            =~= m[g] by {}
    }
}

/// Order independence: marking the same (value, position) pairs in any order,
/// as concurrent workers may interleave them, leaves the same index. Each
/// value's bitset ends up holding exactly the positions marked under it.
pub proof fn lemma_marks_order_independent(ops1: Seq<(u64, nat)>, ops2: Seq<(u64, nat)>)
    requires
        ops1.to_set() == ops2.to_set(),
    ensures
        apply_marks(ops1) == apply_marks(ops2),
        apply_marks(ops1) == marks_map(ops1.to_set()),
{
    lemma_apply_marks(ops1);
    lemma_apply_marks(ops2);
}

/// The index of a batch is the map of its (value, position) pairs: any order
/// of marking every value of every sketch builds it.
pub proof fn lemma_index_of_is_marks(sketches: Seq<Set<u64>>)
    ensures
        index_of(sketches) =~= marks_map(
            Set::new(|p: (u64, nat)| p.1 < sketches.len() && sketches[p.1 as int].contains(p.0)),
        ),
{
    let pairs = Set::new(|p: (u64, nat)| p.1 < sketches.len() && sketches[p.1 as int].contains(p.0));
    assert forall|h: u64| #[trigger] index_of(sketches).contains_key(h) implies marks_map(pairs).contains_key(h) by {
        let j = choose|j: int| 0 <= j < sketches.len() && #[trigger] sketches[j].contains(h);
        assert(pairs.contains((h, j as nat)));
    }
    assert forall|h: u64| #[trigger] marks_map(pairs).contains_key(h) implies index_of(sketches).contains_key(h) by {
        let j = choose|j: nat| #[trigger] pairs.contains((h, j));
        assert(sketches[j as int].contains(h));
    }
    assert forall|h: u64| #[trigger] index_of(sketches).contains_key(h) implies index_of(sketches)[h] =~= marks_map(pairs)[h] by {}
}

} // verus!
