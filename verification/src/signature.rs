//! Component-membership signatures: one bit per component type.

use crate::component::ComponentType;
use bitset::BitSet;
use vstd::prelude::*;
use vstd::string::StringExecFns;

verus! {

/// Number of bits in every signature: the largest number of distinct
/// component types that can be registered.
pub const MAX_COMPONENTS: usize = 64;

/// `bitset::BitSet`, a bit vector whose size is fixed when it is made. The
/// library sees nothing inside it: what it holds is spoken of through
/// `bitset_ones` and `bitset_size` alone.
#[verifier::external_type_specification]
#[verifier::external_body]
pub struct ExBitSet(bitset::BitSet);

/// The indices of the bits of a bit set that are one.
pub uninterp spec fn bitset_ones(bits: BitSet) -> Set<nat>;

/// The number of bits that a bit set was made with.
pub uninterp spec fn bitset_size(bits: BitSet) -> nat;

/// `BitSet::with_capacity`: a bit set of `nbits` bits, all of them zero.
pub assume_specification[ BitSet::with_capacity ](nbits: usize) -> (bits: BitSet)
    ensures
        bitset_size(bits) == nbits,
        bitset_ones(bits) == Set::<nat>::empty(),
;

/// `BitSet::size`: the number of bits the set was made with.
pub assume_specification[ BitSet::size ](bits: &BitSet) -> (size: usize)
    ensures
        size == bitset_size(*bits),
;

/// `BitSet::test`: whether the bit at `bit_idx` is one. The call indexes the
/// block that holds the bit and panics where there is no such block; below
/// the size there always is one.
pub assume_specification[ BitSet::test ](bits: &BitSet, bit_idx: usize) -> (one: bool)
    requires
        bit_idx < bitset_size(*bits),
    ensures
        one == bitset_ones(*bits).contains(bit_idx as nat),
;

/// `BitSet::set`: writes `v` to the bit at `bit_idx`, which lies below the
/// size, and leaves every other bit, and the size, as they were.
pub assume_specification[ BitSet::set ](bits: &mut BitSet, bit_idx: usize, v: bool)
    requires
        bit_idx < bitset_size(*old(bits)),
    ensures
        bitset_size(*final(bits)) == bitset_size(*old(bits)),
        bitset_ones(*final(bits)) == if v {
            bitset_ones(*old(bits)).insert(bit_idx as nat)
        } else {
            bitset_ones(*old(bits)).remove(bit_idx as nat)
        },
;

/// `BitSet::reset`: writes zero to every bit and keeps the size.
pub assume_specification[ BitSet::reset ](bits: &mut BitSet)
    ensures
        bitset_size(*final(bits)) == bitset_size(*old(bits)),
        bitset_ones(*final(bits)) == Set::<nat>::empty(),
;

/// `BitSet::count`: how many bits are one.
pub assume_specification[ BitSet::count ](bits: &BitSet) -> (count: u64)
    ensures
        count == bitset_ones(*bits).len(),
;

/// Which component types an entity has: a bit vector of `MAX_COMPONENTS`
/// bits, indexed by component type id.
pub struct Signature {
    components: BitSet,
}

impl Signature {
    /// The ids of the component types whose bit is one.
    pub closed spec fn view(&self) -> Set<nat> {
        Set::new(
            |i: nat|
                i < MAX_COMPONENTS && i < bitset_size(self.components) && bitset_ones(
                    self.components,
                ).contains(i),
        )
    }

    /// The bit vector has exactly `MAX_COMPONENTS` bits, and no bit beyond
    /// them is one.
    pub closed spec fn wf(&self) -> bool {
        &&& bitset_size(self.components) == MAX_COMPONENTS
        &&& forall|i: nat| bitset_ones(self.components).contains(i) ==> i < MAX_COMPONENTS
    }

    /// Every bit of a signature lies below `MAX_COMPONENTS`, so a signature
    /// holds finitely many component types.
    pub proof fn lemma_bounded(&self)
        ensures
            forall|i: nat| self@.contains(i) ==> i < MAX_COMPONENTS,
            self@.finite(),
            self@.len() <= MAX_COMPONENTS,
    {
        let ints = vstd::set_lib::set_int_range(0, MAX_COMPONENTS as int);
        let below = Set::new(|i: nat| i < MAX_COMPONENTS);
        let to_nat = |i: int| i as nat;
        assert forall|i: nat| below.contains(i) implies ints.map(to_nat).contains(i) by {
            assert(ints.contains(i as int) && to_nat(i as int) == i);
        }
        assert(ints.map(to_nat) =~= below);
        vstd::set_lib::lemma_int_range(0, MAX_COMPONENTS as int);
        vstd::set_lib::lemma_map_size_bound(ints, below, to_nat);
        vstd::set_lib::lemma_len_subset(self@, below);
    }

    /// The signature with no component type.
    #[inline]
    pub fn empty() -> (signature: Signature)
        ensures
            signature.wf(),
            signature@ == Set::<nat>::empty(),
    {
        let signature = Signature { components: BitSet::with_capacity(MAX_COMPONENTS) };
        assert(signature@ =~= Set::<nat>::empty());
        signature
    }

    /// Whether bit `i` is one; a bit that the underlying set does not have
    /// counts as zero.
    fn bit(&self, i: usize) -> (one: bool)
        requires
            i < MAX_COMPONENTS,
        ensures
            one == self@.contains(i as nat),
    {
        i < self.components.size() && self.components.test(i)
    }

    /// Whether the signature has the component type `component`.
    pub fn test(&self, component: ComponentType) -> (present: bool)
        ensures
            present == self@.contains(component.id as nat),
    {
        let i = component.id as usize;
        i < MAX_COMPONENTS && self.bit(i)
    }

    /// Writes `present` to the bit of `component`. A component type whose
    /// id is not below `MAX_COMPONENTS` has no bit: the signature is left
    /// as it was, as the bit set itself ignores a write beyond its blocks.
    pub fn set(&mut self, component: ComponentType, present: bool)
        requires
            old(self).wf(),
        ensures
            final(self).wf(),
            final(self)@ == if component.id as nat >= MAX_COMPONENTS {
                old(self)@
            } else if present {
                old(self)@.insert(component.id as nat)
            } else {
                old(self)@.remove(component.id as nat)
            },
    {
        let i = component.id as usize;
        if i < MAX_COMPONENTS {
            self.components.set(i, present);
        }
        assert(final(self)@ =~= if component.id as nat >= MAX_COMPONENTS {
            old(self)@
        } else if present {
            old(self)@.insert(component.id as nat)
        } else {
            old(self)@.remove(component.id as nat)
        });
    }

    /// Clears every bit.
    pub fn clear(&mut self)
        requires
            old(self).wf(),
        ensures
            final(self).wf(),
            final(self)@ == Set::<nat>::empty(),
    {
        self.components.reset();
        assert(self@ =~= Set::<nat>::empty());
    }

    /// The number of component types in the signature.
    pub fn count(&self) -> (count: u64)
        requires
            self.wf(),
        ensures
            count == self@.len(),
            count <= MAX_COMPONENTS,
    {
        proof {
            self.lemma_bounded();
            assert(self@ =~= bitset_ones(self.components));
        }
        self.components.count()
    }

    /// Whether the signature has no component type.
    #[inline]
    pub fn is_empty(&self) -> (empty: bool)
        requires
            self.wf(),
        ensures
            empty == (self@ == Set::<nat>::empty()),
    {
        proof {
            self.lemma_bounded();
            if self@.len() == 0 {
                self@.lemma_len0_is_empty();
                assert(self@ =~= Set::<nat>::empty());
            }
        }
        self.count() == 0
    }

    /// The bits as text, the highest bit first: `'1'` for a component type
    /// that the signature has, `'0'` for one that it has not.
    pub open spec fn bits_text(bits: Set<nat>) -> Seq<char> {
        Seq::new(
            MAX_COMPONENTS as nat,
            |place: int|
                if bits.contains((MAX_COMPONENTS - 1 - place) as nat) {
                    '1'
                } else {
                    '0'
                },
        )
    }

    /// The signature as text, for diagnostics: its bits, the highest first,
    /// between `Signature [` and `]`.
    pub fn to_string(&self) -> (text: String)
        ensures
            text@ == "Signature ["@ + Self::bits_text(self@) + "]"@,
    {
        let mut text = String::from_str("Signature [");
        let mut place: usize = 0;
        while place < MAX_COMPONENTS
            invariant
                place <= MAX_COMPONENTS,
                text@ == "Signature ["@ + Self::bits_text(self@).take(place as int),
            decreases MAX_COMPONENTS - place,
        {
            proof {
                reveal_strlit("1");
                reveal_strlit("0");
            }
            if self.bit(MAX_COMPONENTS - 1 - place) {
                text.append("1");
            } else {
                text.append("0");
            }
            place += 1;
            assert(text@ =~= "Signature ["@ + Self::bits_text(self@).take(place as int));
        }
        text.append("]");
        assert(Self::bits_text(self@).take(MAX_COMPONENTS as int) =~= Self::bits_text(self@));
        text
    }

    /// The signature that has the bits of `components` which lie below both
    /// its size and `MAX_COMPONENTS`.
    pub fn new(components: BitSet) -> (signature: Signature)
        ensures
            signature.wf(),
            signature@ == Set::new(
                |i: nat|
                    i < MAX_COMPONENTS && i < bitset_size(components) && bitset_ones(
                        components,
                    ).contains(i),
            ),
    {
        let given = Signature { components: components };
        let signature = given.clone();
        assert(signature@ =~= Set::new(
            |i: nat|
                i < MAX_COMPONENTS && i < bitset_size(components) && bitset_ones(
                    components,
                ).contains(i),
        ));
        signature
    }
}

impl Clone for Signature {
    /// A signature of `MAX_COMPONENTS` bits with the same component types.
    fn clone(&self) -> (copy: Self)
        ensures
            copy.wf(),
            copy@ == self@,
    {
        let mut copy = Signature::empty();
        let mut i: usize = 0;
        while i < MAX_COMPONENTS
            invariant
                i <= MAX_COMPONENTS,
                copy.wf(),
                forall|j: nat| copy@.contains(j) <==> (j < i && self@.contains(j)),
            decreases MAX_COMPONENTS - i,
        {
            let ghost before = copy;
            if self.bit(i) {
                copy.components.set(i, true);
            }
            assert forall|j: nat| copy@.contains(j) <==> (j < i + 1 && self@.contains(j)) by {
                assert(before@.contains(j) <==> (j < i && self@.contains(j)));
            }
            i += 1;
        }
        proof {
            self.lemma_bounded();
            assert(copy@ =~= self@);
        }
        copy
    }
}

impl PartialEq for Signature {
    /// Bit by bit.
    fn eq(&self, other: &Self) -> (equal: bool) {
        let mut i: usize = 0;
        while i < MAX_COMPONENTS
            invariant
                i <= MAX_COMPONENTS,
                forall|j: nat| j < i ==> (self@.contains(j) <==> other@.contains(j)),
            decreases MAX_COMPONENTS - i,
        {
            if self.bit(i) != other.bit(i) {
                assert(self@.contains(i as nat) != other@.contains(i as nat));
                return false;
            }
            i += 1;
        }
        proof {
            self.lemma_bounded();
            other.lemma_bounded();
            assert(self@ =~= other@);
        }
        true
    }
}

impl Eq for Signature {

}

impl vstd::std_specs::cmp::PartialEqSpecImpl for Signature {
    open spec fn obeys_eq_spec() -> bool {
        true
    }

    open spec fn eq_spec(&self, other: &Self) -> bool {
        self@ == other@
    }
}

} // verus!
