//! Sets of Linux capabilities, as bit masks indexed by capability number.

use vstd::prelude::*;
use crate::assoc::texts;
use vstd::utf8::is_ascii_chars;

verus! {

/// Number of capabilities known to the capability library (numbers 0 to 40).
pub const CAP_COUNT: u8 = 41;

/// Mask of the bits that stand for known capabilities.
pub const CAP_MASK: u64 = 0x1ff_ffff_ffff;

/// The number of the capability that a name denotes, if it denotes one.
pub uninterp spec fn cap_index_of(name: Seq<char>) -> Option<u8>;

/// The canonical name of a capability number.
pub uninterp spec fn cap_name_of(index: u8) -> Seq<char>;

/// Relies on capctl's `FromStr` for `Cap`: the capability a name denotes, whose
/// number is below 41. The name is ASCII, since the parser slices it at byte 4.
#[verifier::external_body]
fn parse_cap(name: &str) -> (r: Option<u8>)
    requires
        is_ascii_chars(name@),
    ensures
        r == cap_index_of(name@),
        r is Some ==> r->Some_0 < CAP_COUNT,
{
    name.parse::<capctl::Cap>().ok().map(|c| c as u8)
}

/// Relies on capctl's `Cap::iter`, which yields the capabilities by increasing
/// number, and its `Display`, `CAP_` and the variant's name: the canonical name of
/// capability `index`, in ASCII, which capctl's `FromStr` parses back to `index`.
#[verifier::external_body]
fn cap_name(index: u8) -> (r: String)
    requires
        index < CAP_COUNT,
    ensures
        r@ == cap_name_of(index),
        cap_index_of(r@) == Some(index),
        is_ascii_chars(r@),
{
    match capctl::Cap::iter().nth(index as usize) {
        Some(c) => c.to_string(),
        None => String::new(),
    }
}

/// Error returned for a capability name that denotes no capability.
#[derive(Clone, Copy, Debug, PartialEq, Eq, Structural)]
pub struct UnknownCapability;

/// The numbers of a list of capability names, or `None` if one denotes no capability
/// (no capability name holds a character outside ASCII).
pub open spec fn names_indices(names: Seq<Seq<char>>) -> Option<Seq<u8>>
    decreases names.len(),
{
    if names.len() == 0 {
        Some(Seq::empty())
    } else {
        match (names_indices(names.drop_last()), cap_index_of(names.last())) {
            (Some(acc), Some(i)) => if is_ascii_chars(names.last()) {
                Some(acc.push(i))
            } else {
                None
            },
            _ => None,
        }
    }
}

/// The mask with the bits of the given capability numbers.
pub open spec fn indices_bits(indices: Seq<u8>) -> u64
    decreases indices.len(),
{
    if indices.len() == 0 {
        0
    } else {
        indices_bits(indices.drop_last()) | (1u64 << indices.last())
    }
}

/// The mask of a list of capability names, or `None` if one denotes no capability.
pub open spec fn names_bits(names: Seq<Seq<char>>) -> Option<u64> {
    match names_indices(names) {
        Some(ix) => Some(indices_bits(ix)),
        None => None,
    }
}

/// Whether capability `i` is in the mask.
pub open spec fn has_cap(bits: u64, i: u8) -> bool {
    (bits >> i) & 1 == 1
}

/// The names of the capabilities of the mask with a number below `n`, by increasing number.
pub open spec fn cap_names_below(bits: u64, n: u8) -> Seq<Seq<char>>
    decreases n,
{
    if n == 0 {
        Seq::empty()
    } else {
        let rest = cap_names_below(bits, (n - 1) as u8);
        if has_cap(bits, (n - 1) as u8) {
            rest.push(cap_name_of((n - 1) as u8))
        } else {
            rest
        }
    }
}

/// The texts of `parts` with a comma between each two.
pub open spec fn comma_join(parts: Seq<Seq<char>>) -> Seq<char>
    decreases parts.len(),
{
    if parts.len() == 0 {
        Seq::empty()
    } else if parts.len() == 1 {
        parts[0]
    } else {
        comma_join(parts.drop_last()) + seq![','] + parts.last()
    }
}

proof fn lemma_or_bit_in_mask(a: u64, i: u8)
    requires
        a & !CAP_MASK == 0,
        i < 41,
    ensures
        (a | (1u64 << i)) & !CAP_MASK == 0,
{
    assert((a | (1u64 << i)) & !0x1ff_ffff_ffffu64 == 0) by (bit_vector)
        requires
            a & !0x1ff_ffff_ffffu64 == 0,
            i < 41,
    ;
}

proof fn lemma_or_in_mask(a: u64, b: u64)
    requires
        a & !CAP_MASK == 0,
        b & !CAP_MASK == 0,
    ensures
        (a | b) & !CAP_MASK == 0,
{
    assert((a | b) & !0x1ff_ffff_ffffu64 == 0) by (bit_vector)
        requires
            a & !0x1ff_ffff_ffffu64 == 0,
            b & !0x1ff_ffff_ffffu64 == 0,
    ;
}

/// A capability of either operand is a capability of their union.
pub proof fn lemma_or_keeps_bit(a: u64, b: u64, m: u8)
    requires
        m < 64,
        has_cap(a, m) || has_cap(b, m),
    ensures
        has_cap(a | b, m),
{
    let mm = m as u64;
    assert((a >> mm) & 1 == 1 || (b >> mm) & 1 == 1 ==> ((a | b) >> mm) & 1 == 1) by (bit_vector)
        requires mm < 64;
}

proof fn lemma_shift_bit(m: u8)
    requires
        m < 64,
    ensures
        has_cap(1u64 << m, m),
{
    let mm = m as u64;
    assert(((1u64 << mm) >> mm) & 1 == 1) by (bit_vector)
        requires mm < 64;
}

/// Every number of `indices` is a capability of their mask.
pub proof fn lemma_indices_in_bits(indices: Seq<u8>)
    requires
        forall|i: int| 0 <= i < indices.len() ==> #[trigger] indices[i] < CAP_COUNT,
    ensures
        forall|i: int| 0 <= i < indices.len() ==> has_cap(indices_bits(indices), #[trigger] indices[i]),
    decreases indices.len(),
{
    if indices.len() > 0 {
        let t = indices.drop_last();
        lemma_indices_in_bits(t);
        let l = indices.last();
        assert forall|i: int| 0 <= i < indices.len() implies has_cap(indices_bits(indices), #[trigger] indices[i]) by {
            if i < indices.len() - 1 {
                assert(t[i] == indices[i]);
                lemma_or_keeps_bit(indices_bits(t), 1u64 << l, indices[i]);
            } else {
                lemma_shift_bit(l);
                lemma_or_keeps_bit(indices_bits(t), 1u64 << l, l);
            }
        }
    }
}

/// A set of capabilities.
#[derive(Clone, Copy, Debug, PartialEq, Eq, Structural)]
pub struct Caps {
    pub bits: u64,
}

impl Caps {
    /// Whether only known capabilities are in the set.
    pub open spec fn wf(self) -> bool {
        self.bits & !CAP_MASK == 0
    }

    /// The empty set.
    pub fn empty() -> (r: Caps)
        ensures
            r.bits == 0,
            r.wf(),
    {
        assert(0u64 & !0x1ff_ffff_ffffu64 == 0) by (bit_vector);
        Caps { bits: 0 }
    }

    /// The set of the given mask, without unknown capabilities.
    pub fn from_mask(mask: u64) -> (r: Caps)
        ensures
            r.bits == mask & CAP_MASK,
            r.wf(),
    {
        assert((mask & 0x1ff_ffff_ffffu64) & !0x1ff_ffff_ffffu64 == 0) by (bit_vector);
        Caps { bits: mask & CAP_MASK }
    }

    /// The capabilities of both sets.
    pub fn union(self, other: Caps) -> (r: Caps)
        requires
            self.wf(),
            other.wf(),
        ensures
            r.bits == self.bits | other.bits,
            r.wf(),
    {
        proof {
            lemma_or_in_mask(self.bits, other.bits);
        }
        Caps { bits: self.bits | other.bits }
    }

    /// Whether every capability of `self` is in `other`.
    pub fn is_subset_of(self, other: Caps) -> (r: bool)
        ensures
            r == (self.bits & !other.bits == 0),
    {
        self.bits & !other.bits == 0
    }

    /// Whether capability `i` is in the set.
    pub fn has(self, i: u8) -> (r: bool)
        requires
            i < 64,
        ensures
            r == has_cap(self.bits, i),
    {
        (self.bits >> i) & 1 == 1
    }

    /// The set of the given capability numbers.
    pub fn from_indices(indices: &Vec<u8>) -> (r: Caps)
        requires
            forall|i: int| 0 <= i < indices@.len() ==> #[trigger] indices@[i] < CAP_COUNT,
        ensures
            r.bits == indices_bits(indices@),
            r.wf(),
    {
        let mut bits: u64 = 0;
        let mut i: usize = 0;
        assert(0u64 & !0x1ff_ffff_ffffu64 == 0) by (bit_vector);
        while i < indices.len()
            invariant
                i <= indices@.len(),
                forall|j: int| 0 <= j < indices@.len() ==> #[trigger] indices@[j] < CAP_COUNT,
                bits == indices_bits(indices@.subrange(0, i as int)),
                bits & !CAP_MASK == 0,
            decreases indices@.len() - i,
        {
            let c = indices[i];
            proof {
                assert(indices@.subrange(0, i + 1).drop_last() =~= indices@.subrange(0, i as int));
                lemma_or_bit_in_mask(bits, c);
            }
            bits = bits | (1u64 << c);
            i = i + 1;
        }
        proof {
            assert(indices@.subrange(0, indices@.len() as int) =~= indices@);
        }
        Caps { bits }
    }

    /// The set of the named capabilities; a name that denotes no capability is an error.
    pub fn from_names(names: &Vec<String>) -> (r: Result<Caps, UnknownCapability>)
        ensures
            match names_bits(texts(names@)) {
                Some(b) => r == Ok::<Caps, UnknownCapability>(Caps { bits: b }),
                None => r == Err::<Caps, UnknownCapability>(UnknownCapability),
            },
            r is Ok ==> r->Ok_0.wf(),
            r is Ok ==> forall|j: int| 0 <= j < names@.len() ==> {
                let k = cap_index_of(#[trigger] names@[j]@);
                k is Some && k->Some_0 < CAP_COUNT && has_cap(r->Ok_0.bits, k->Some_0)
            },
    {
        let ghost t = texts(names@);
        let mut indices: Vec<u8> = Vec::new();
        let mut i: usize = 0;
        while i < names.len()
            invariant
                i <= names@.len(),
                t == texts(names@),
                names_indices(t.subrange(0, i as int)) == Some(indices@),
                forall|j: int| 0 <= j < indices@.len() ==> #[trigger] indices@[j] < CAP_COUNT,
                indices@.len() == i,
                forall|j: int| 0 <= j < i ==> cap_index_of(#[trigger] names@[j]@) == Some(indices@[j]),
            decreases names@.len() - i,
        {
            proof {
                assert(t.subrange(0, i + 1).drop_last() =~= t.subrange(0, i as int));
                assert(t.subrange(0, i + 1).last() == names@[i as int]@);
            }
            if !names[i].as_str().is_ascii() {
                proof {
                    lemma_unknown_stays(t, i as int);
                }
                return Err(UnknownCapability);
            }
            match parse_cap(names[i].as_str()) {
                Some(c) => {
                    indices.push(c);
                },
                None => {
                    proof {
                        lemma_unknown_stays(t, i as int);
                    }
                    return Err(UnknownCapability);
                },
            }
            i = i + 1;
        }
        proof {
            assert(t.subrange(0, names@.len() as int) =~= t);
            lemma_indices_in_bits(indices@);
        }
        Ok(Caps::from_indices(&indices))
    }

    /// The names of the capabilities in the set, by increasing number, joined with commas.
    pub fn to_text(&self) -> (r: String)
        ensures
            r@ == comma_join(cap_names_below(self.bits, CAP_COUNT)),
    {
        join_names(&self.names())
    }

    /// The names of the capabilities in the set, by increasing number. Each parses back
    /// to a capability of the set, and each capability of the set is named.
    pub fn names(&self) -> (r: Vec<String>)
        ensures
            texts(r@) == cap_names_below(self.bits, CAP_COUNT),
            forall|j: int| 0 <= j < r@.len() ==> is_ascii_chars(#[trigger] r@[j]@) && {
                let k = cap_index_of(r@[j]@);
                k is Some && k->Some_0 < CAP_COUNT && has_cap(self.bits, k->Some_0)
            },
            forall|k: u8| k < CAP_COUNT && has_cap(self.bits, k) ==> exists|j: int|
                0 <= j < r@.len() && cap_index_of(#[trigger] r@[j]@) == Some(k),
    {
        let mut names: Vec<String> = Vec::new();
        let mut i: u8 = 0;
        assert(texts(names@) =~= cap_names_below(self.bits, 0));
        while i < CAP_COUNT
            invariant
                i <= CAP_COUNT,
                texts(names@) == cap_names_below(self.bits, i),
                forall|j: int| 0 <= j < names@.len() ==> is_ascii_chars(#[trigger] names@[j]@) && {
                    let k = cap_index_of(names@[j]@);
                    k is Some && k->Some_0 < i && has_cap(self.bits, k->Some_0)
                },
                forall|k: u8| k < i && has_cap(self.bits, k) ==> exists|j: int|
                    0 <= j < names@.len() && cap_index_of(#[trigger] names@[j]@) == Some(k),
            decreases CAP_COUNT - i,
        {
            if (self.bits >> i) & 1 == 1 {
                let name = cap_name(i);
                let ghost before = names@;
                names.push(name);
                assert(texts(names@) =~= cap_names_below(self.bits, (i + 1) as u8));
                assert forall|j: int| 0 <= j < names@.len() implies is_ascii_chars(#[trigger] names@[j]@) && {
                    let k = cap_index_of(names@[j]@);
                    k is Some && k->Some_0 < i + 1 && has_cap(self.bits, k->Some_0)
                } by {
                    if j < before.len() {
                        assert(names@[j] == before[j]);
                    }
                }
                assert forall|k: u8| k < i + 1 && has_cap(self.bits, k) implies exists|j: int|
                    0 <= j < names@.len() && cap_index_of(#[trigger] names@[j]@) == Some(k) by {
                    if k < i {
                        let j = choose|j: int| 0 <= j < before.len() && cap_index_of(#[trigger] before[j]@) == Some(k);
                        assert(names@[j] == before[j]);
                    } else {
                        assert(names@[before.len() as int] == name);
                    }
                }
            }
            i = i + 1;
        }
        names
    }
}

/// The names joined with commas.
pub fn join_names(names: &Vec<String>) -> (r: String)
    ensures
        r@ == comma_join(texts(names@)),
{
    let mut s = String::new();
    let mut i: usize = 0;
    while i < names.len()
        invariant
            i <= names@.len(),
            s@ == comma_join(texts(names@).subrange(0, i as int)),
        decreases names@.len() - i,
    {
        let ghost prev = texts(names@).subrange(0, i as int);
        let ghost next = texts(names@).subrange(0, i + 1);
        if i > 0 {
            s.append(",");
        }
        s.append(names[i].as_str());
        proof {
            reveal_strlit(",");
            assert(next.drop_last() =~= prev);
            if i > 0 {
                assert(comma_join(next) == comma_join(prev) + seq![','] + names@[i as int]@);
            } else {
                assert(next =~= seq![names@[i as int]@]);
            }
            assert(s@ =~= comma_join(next));
        }
        i = i + 1;
    }
    proof {
        assert(texts(names@).subrange(0, names@.len() as int) =~= texts(names@));
    }
    s
}

proof fn lemma_unknown_stays(t: Seq<Seq<char>>, i: int)
    requires
        0 <= i < t.len(),
        cap_index_of(t[i]) is None || !is_ascii_chars(t[i]),
    ensures
        names_indices(t) is None,
    decreases t.len(),
{
    if i == t.len() - 1 {
    } else {
        lemma_unknown_stays(t.drop_last(), i);
    }
}

} // verus!
