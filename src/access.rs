use vstd::prelude::*;

verus! {

/// Bit of read access.
pub const READ_BIT: u8 = 4;

/// Bit of write access.
pub const WRITE_BIT: u8 = 2;

/// Bit of execute access.
pub const EXECUTE_BIT: u8 = 1;

/// A set of file access modes: read, write and execute.
#[derive(Clone, Copy, Debug, PartialEq, Eq, Structural)]
pub struct Access {
    pub bits: u8,
}

/// Error returned when an access string holds a character other than `R`, `W` or `X`.
#[derive(Clone, Copy, Debug, PartialEq, Eq, Structural)]
pub struct AccessParseError;

/// The bit that an access letter stands for, or `None` for any other character.
pub open spec fn letter_bit(c: char) -> Option<u8> {
    if c == 'R' {
        Some(READ_BIT)
    } else if c == 'W' {
        Some(WRITE_BIT)
    } else if c == 'X' {
        Some(EXECUTE_BIT)
    } else {
        None
    }
}

/// Whether every character of `s` is an access letter.
pub open spec fn is_access_text(s: Seq<char>) -> bool {
    forall|i: int| 0 <= i < s.len() ==> (#[trigger] letter_bit(s[i])).is_some()
}

/// The union of the bits of the access letters of `s`.
pub open spec fn text_bits(s: Seq<char>) -> u8
    decreases s.len(),
{
    if s.len() == 0 {
        0
    } else {
        let rest = text_bits(s.drop_last());
        match letter_bit(s.last()) {
            Some(b) => rest | b,
            None => rest,
        }
    }
}

/// The textual form of a set of access bits: the present letters in R, W, X order.
pub open spec fn bits_text(bits: u8) -> Seq<char> {
    (if bits & READ_BIT != 0 { seq!['R'] } else { Seq::empty() })
        + (if bits & WRITE_BIT != 0 { seq!['W'] } else { Seq::empty() })
        + (if bits & EXECUTE_BIT != 0 { seq!['X'] } else { Seq::empty() })
}

proof fn lemma_or_small(a: u8, b: u8)
    requires
        a < 8,
        b < 8,
    ensures
        a | b < 8,
{
    assert(a | b < 8) by (bit_vector)
        requires
            a < 8,
            b < 8,
    ;
}

proof fn lemma_text_bits_small(s: Seq<char>)
    ensures
        text_bits(s) < 8,
    decreases s.len(),
{
    if s.len() > 0 {
        lemma_text_bits_small(s.drop_last());
        match letter_bit(s.last()) {
            Some(b) => lemma_or_small(text_bits(s.drop_last()), b),
            None => {},
        }
    }
}

impl View for Access {
    type V = u8;

    open spec fn view(&self) -> u8 {
        self.bits
    }
}

impl Access {
    /// Whether the value holds only read, write and execute bits.
    pub open spec fn wf(self) -> bool {
        self.bits < 8
    }

    /// The set of access holding no mode.
    pub fn empty() -> (r: Access)
        ensures
            r.bits == 0,
    {
        Access { bits: 0 }
    }

    /// Read access.
    pub fn read() -> (r: Access)
        ensures
            r.bits == READ_BIT,
    {
        Access { bits: READ_BIT }
    }

    /// Write access.
    pub fn write() -> (r: Access)
        ensures
            r.bits == WRITE_BIT,
    {
        Access { bits: WRITE_BIT }
    }

    /// Execute access.
    pub fn execute() -> (r: Access)
        ensures
            r.bits == EXECUTE_BIT,
    {
        Access { bits: EXECUTE_BIT }
    }

    /// The modes of both operands.
    pub fn union(self, other: Access) -> (r: Access)
        ensures
            r == self.union_spec(other),
            self.wf() && other.wf() ==> r.wf(),
    {
        proof {
            if self.wf() && other.wf() {
                lemma_or_small(self.bits, other.bits);
            }
        }
        Access { bits: self.bits | other.bits }
    }

    /// Whether every mode of `other` is present in `self`.
    pub fn contains(self, other: Access) -> (r: bool)
        ensures
            r == (self.bits & other.bits == other.bits),
    {
        self.bits & other.bits == other.bits
    }

    /// The textual form: `R`, `W` and `X` for the present modes, in that order.
    pub fn to_text(&self) -> (r: String)
        ensures
            r@ == bits_text(self.bits),
    {
        let mut s = String::new();
        if self.bits & READ_BIT != 0 {
            s.append("R");
        }
        proof {
            reveal_strlit("R");
        }
        if self.bits & WRITE_BIT != 0 {
            s.append("W");
        }
        proof {
            reveal_strlit("W");
        }
        if self.bits & EXECUTE_BIT != 0 {
            s.append("X");
        }
        proof {
            reveal_strlit("X");
            assert(s@ =~= bits_text(self.bits));
        }
        s
    }

    /// Parses the textual form; any character other than `R`, `W` or `X` is rejected.
    pub fn from_text(s: &str) -> (r: Result<Access, AccessParseError>)
        ensures
            is_access_text(s@) ==> r == Ok::<Access, AccessParseError>(
                Access { bits: text_bits(s@) },
            ),
            !is_access_text(s@) ==> r == Err::<Access, AccessParseError>(AccessParseError),
            r is Ok ==> r->Ok_0.wf(),
    {
        let n = s.unicode_len();
        let mut bits: u8 = 0;
        let mut i: usize = 0;
        while i < n
            invariant
                n == s@.len(),
                i <= n,
                is_access_text(s@.subrange(0, i as int)),
                bits == text_bits(s@.subrange(0, i as int)),
            decreases n - i,
        {
            let c = s.get_char(i);
            let b: u8 = if c == 'R' {
                READ_BIT
            } else if c == 'W' {
                WRITE_BIT
            } else if c == 'X' {
                EXECUTE_BIT
            } else {
                assert(!is_access_text(s@)) by {
                    assert(letter_bit(s@[i as int]) is None);
                };
                return Err(AccessParseError);
            };
            proof {
                let next = s@.subrange(0, i + 1);
                assert(next.drop_last() =~= s@.subrange(0, i as int));
                assert(next.last() == c);
            }
            bits = bits | b;
            i = i + 1;
        }
        proof {
            assert(s@.subrange(0, n as int) =~= s@);
            lemma_text_bits_small(s@);
        }
        Ok(Access { bits })
    }
}

/// Merging an access with itself leaves it unchanged.
pub proof fn lemma_union_idempotent(x: Access)
    ensures
        x.union_spec(x) == x,
{
    let b = x.bits;
    assert(b | b == b) by (bit_vector);
}

/// The merge of two accesses holds every mode of each of them.
pub proof fn lemma_union_superset(x: Access, y: Access)
    ensures
        x.union_spec(y).bits & x.bits == x.bits,
        x.union_spec(y).bits & y.bits == y.bits,
{
    let a = x.bits;
    let b = y.bits;
    assert((a | b) & a == a && (a | b) & b == b) by (bit_vector);
}

impl Access {
    /// The merge of two accesses, as a value.
    pub open spec fn union_spec(self, other: Access) -> Access {
        Access { bits: self.bits | other.bits }
    }
}

} // verus!
