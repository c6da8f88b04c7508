//! Deterministic account names for discovered policies.

use vstd::prelude::*;
use vstd::utf8::{
    encode_scalar, encode_utf8, encode_utf8_decode_utf8, last_continuation_byte, leading_byte_width_1,
    leading_byte_width_2, leading_byte_width_3, leading_byte_width_4, second_last_continuation_byte,
    third_last_continuation_byte,
};
use sha2::Digest;

verus! {

/// The SHA-224 digest of a byte sequence.
pub uninterp spec fn sha224_digest(data: Seq<u8>) -> Seq<u8>;

/// The lowercase hexadecimal digit of a value below 16.
pub open spec fn hex_digit(n: u8) -> char {
    seq!['0', '1', '2', '3', '4', '5', '6', '7', '8', '9', 'a', 'b', 'c', 'd', 'e', 'f'][n as int]
}

/// Two lowercase hexadecimal digits per byte, high digit first.
pub open spec fn hex_text(b: Seq<u8>) -> Seq<char>
    decreases b.len(),
{
    if b.len() == 0 {
        Seq::empty()
    } else {
        hex_text(b.drop_last()) + seq![hex_digit(b.last() / 16), hex_digit(b.last() % 16)]
    }
}

/// Prefix of the identities derived from a playbook and a task.
pub open spec fn task_prefix() -> Seq<char> {
    seq!['r', 'a', 'r', '_']
}

/// Prefix of the identities derived from a raw command.
pub open spec fn command_prefix() -> Seq<char> {
    seq!['g', 's', 'r', '_']
}

/// The byte that ends each part of a hashed message; it never occurs in UTF-8.
pub const SEPARATOR: u8 = 0xff;

/// Whether `b` holds no separator byte.
pub open spec fn no_separator(b: Seq<u8>) -> bool {
    forall|i: int| 0 <= i < b.len() ==> #[trigger] b[i] != SEPARATOR
}

/// The bytes hashed for a playbook task: the UTF-8 encodings of the playbook and the
/// task, with a separator between them.
pub open spec fn task_message(playbook: Seq<char>, task: Seq<char>) -> Seq<u8> {
    encode_utf8(playbook) + seq![SEPARATOR] + encode_utf8(task)
}

/// The bytes hashed for a raw command: the UTF-8 encoding of each token followed by a
/// separator.
pub open spec fn command_bytes(command: Seq<Seq<char>>) -> Seq<u8>
    decreases command.len(),
{
    if command.len() == 0 {
        Seq::empty()
    } else {
        command_bytes(command.drop_last()) + encode_utf8(command.last()) + seq![SEPARATOR]
    }
}

/// The identity of a playbook task.
pub open spec fn task_identity(playbook: Seq<char>, task: Seq<char>) -> Seq<char> {
    task_prefix() + hex_text(sha224_digest(task_message(playbook, task)))
}

/// The identity of a raw command.
pub open spec fn command_identity(command: Seq<Seq<char>>) -> Seq<char> {
    command_prefix() + hex_text(sha224_digest(command_bytes(command)))
}

/// Whether a name carries the prefix of one of the two derivation schemes.
pub open spec fn has_identity_prefix(name: Seq<char>) -> bool {
    name.len() >= 4 && (name.subrange(0, 4) == task_prefix() || name.subrange(0, 4) == command_prefix())
}

/// Relies on sha2's `Sha224::digest`: the SHA-224 digest of the bytes, 28 bytes long.
#[verifier::external_body]
fn sha224(data: &Vec<u8>) -> (r: Vec<u8>)
    ensures
        r@ == sha224_digest(data@),
        r@.len() == 28,
{
    sha2::Sha224::digest(data.as_slice()).to_vec()
}

/// Relies on hex's `encode`: two lowercase hexadecimal digits per byte, high digit first.
#[verifier::external_body]
fn hex_encode(data: &Vec<u8>) -> (r: String)
    ensures
        r@ == hex_text(data@),
{
    hex::encode(data.as_slice())
}

/// The identity of a playbook task whose inputs have the SHA-224 digest `digest`.
pub fn task_identity_from_digest(digest: &Vec<u8>) -> (r: String)
    ensures
        r@ == task_prefix() + hex_text(digest@),
{
    let h = hex_encode(digest);
    let mut s = String::new();
    s.append("rar_");
    s.append(h.as_str());
    proof {
        reveal_strlit("rar_");
        assert(s@ =~= task_prefix() + hex_text(digest@));
    }
    s
}

/// The identity of a raw command whose tokens have the SHA-224 digest `digest`.
pub fn command_identity_from_digest(digest: &Vec<u8>) -> (r: String)
    ensures
        r@ == command_prefix() + hex_text(digest@),
{
    let h = hex_encode(digest);
    let mut s = String::new();
    s.append("gsr_");
    s.append(h.as_str());
    proof {
        reveal_strlit("gsr_");
        assert(s@ =~= command_prefix() + hex_text(digest@));
    }
    s
}

/// The account name bound to a playbook task.
pub fn identity_for_task(playbook: &str, task: &str) -> (r: String)
    ensures
        r@ == task_identity(playbook@, task@),
        r@.len() == 60,
{
    let mut bytes = playbook.as_bytes_vec();
    bytes.push(SEPARATOR);
    let mut tail = task.as_bytes_vec();
    bytes.append(&mut tail);
    assert(bytes@ =~= task_message(playbook@, task@));
    let digest = sha224(&bytes);
    proof {
        lemma_hex_text_len(digest@);
    }
    task_identity_from_digest(&digest)
}

/// The account name bound to a raw command.
pub fn identity_for_command(command: &Vec<String>) -> (r: String)
    ensures
        r@ == command_identity(command@.map_values(|s: String| s@)),
        r@.len() == 60,
{
    let ghost tokens = command@.map_values(|s: String| s@);
    let mut bytes: Vec<u8> = Vec::new();
    let mut i: usize = 0;
    while i < command.len()
        invariant
            i <= command@.len(),
            tokens == command@.map_values(|s: String| s@),
            bytes@ == command_bytes(tokens.subrange(0, i as int)),
        decreases command@.len() - i,
    {
        let mut part = command[i].as_str().as_bytes_vec();
        bytes.append(&mut part);
        bytes.push(SEPARATOR);
        proof {
            assert(tokens.subrange(0, i + 1).drop_last() =~= tokens.subrange(0, i as int));
            assert(bytes@ =~= command_bytes(tokens.subrange(0, i + 1)));
        }
        i = i + 1;
    }
    proof {
        assert(tokens.subrange(0, command@.len() as int) =~= tokens);
    }
    let digest = sha224(&bytes);
    proof {
        lemma_hex_text_len(digest@);
    }
    command_identity_from_digest(&digest)
}

/// Whether `name` is an identity that this library derives, by its prefix.
pub fn is_derived_identity(name: &str) -> (r: bool)
    ensures
        r == has_identity_prefix(name@),
{
    let n = name.unicode_len();
    if n < 4 {
        return false;
    }
    let c0 = name.get_char(0);
    let c1 = name.get_char(1);
    let c2 = name.get_char(2);
    let c3 = name.get_char(3);
    let r = (c0 == 'r' || c0 == 'g') && c1 == (if c0 == 'r' { 'a' } else { 's' }) && c2 == 'r' && c3 == '_';
    proof {
        let p = name@.subrange(0, 4);
        assert(p[0] == c0 && p[1] == c1 && p[2] == c2 && p[3] == c3);
        if r {
            if c0 == 'r' {
                assert(p =~= task_prefix());
            } else {
                assert(p =~= command_prefix());
            }
        }
    }
    r
}

proof fn lemma_hex_text_len(b: Seq<u8>)
    ensures
        hex_text(b).len() == 2 * b.len(),
    decreases b.len(),
{
    if b.len() > 0 {
        lemma_hex_text_len(b.drop_last());
    }
}

proof fn lemma_scalar_no_separator(x: u32)
    ensures
        no_separator(encode_scalar(x)),
{
    assert(leading_byte_width_1(x) != 0xff) by (bit_vector);
    assert(leading_byte_width_2(x) != 0xff) by (bit_vector);
    assert(leading_byte_width_3(x) != 0xff) by (bit_vector);
    assert(leading_byte_width_4(x) != 0xff) by (bit_vector);
    assert(last_continuation_byte(x) != 0xff) by (bit_vector);
    assert(second_last_continuation_byte(x) != 0xff) by (bit_vector);
    assert(third_last_continuation_byte(x) != 0xff) by (bit_vector);
}

/// UTF-8 never holds the separator byte.
proof fn lemma_utf8_no_separator(s: Seq<char>)
    ensures
        no_separator(encode_utf8(s)),
    decreases s.len(),
{
    if s.len() > 0 {
        lemma_scalar_no_separator(s[0] as u32);
        lemma_utf8_no_separator(s.drop_first());
        let a = encode_scalar(s[0] as u32);
        let b = encode_utf8(s.drop_first());
        assert forall|i: int| 0 <= i < (a + b).len() implies #[trigger] (a + b)[i] != SEPARATOR by {
            if i < a.len() {
                assert((a + b)[i] == a[i]);
            } else {
                assert((a + b)[i] == b[i - a.len()]);
            }
        }
    }
}

proof fn lemma_utf8_injective(a: Seq<char>, b: Seq<char>)
    requires
        encode_utf8(a) == encode_utf8(b),
    ensures
        a == b,
{
    encode_utf8_decode_utf8(a);
    encode_utf8_decode_utf8(b);
}

/// `a + [sep] + b == c + [sep] + d` splits the same way when no part holds the separator.
proof fn lemma_split_at_separator(a: Seq<u8>, b: Seq<u8>, c: Seq<u8>, d: Seq<u8>)
    requires
        no_separator(a),
        no_separator(c),
        a + seq![SEPARATOR] + b == c + seq![SEPARATOR] + d,
    ensures
        a == c,
        b == d,
{
    let x = a + seq![SEPARATOR] + b;
    let y = c + seq![SEPARATOR] + d;
    if a.len() < c.len() {
        assert(x[a.len() as int] == SEPARATOR);
        assert(y[a.len() as int] == c[a.len() as int]);
    } else if c.len() < a.len() {
        assert(y[c.len() as int] == SEPARATOR);
        assert(x[c.len() as int] == a[c.len() as int]);
    }
    assert(a =~= x.subrange(0, a.len() as int));
    assert(c =~= y.subrange(0, c.len() as int));
    assert(b =~= x.subrange(a.len() as int + 1, x.len() as int));
    assert(d =~= y.subrange(c.len() as int + 1, y.len() as int));
}

/// `a + b == c + d` with `b` and `d` free of separators, and `a` and `c` each empty or
/// ending with one, splits the same way.
proof fn lemma_split_after_last_separator(a: Seq<u8>, b: Seq<u8>, c: Seq<u8>, d: Seq<u8>)
    requires
        no_separator(b),
        no_separator(d),
        a.len() == 0 || a.last() == SEPARATOR,
        c.len() == 0 || c.last() == SEPARATOR,
        a + b == c + d,
    ensures
        a == c,
        b == d,
{
    let x = a + b;
    let y = c + d;
    if b.len() < d.len() {
        if a.len() == 0 {
            assert(x.len() == b.len());
        } else {
            let k = a.len() - 1;
            assert(x[k] == SEPARATOR);
            assert(y[k] == d[k - c.len()]);
        }
    } else if d.len() < b.len() {
        if c.len() == 0 {
            assert(y.len() == d.len());
        } else {
            let k = c.len() - 1;
            assert(y[k] == SEPARATOR);
            assert(x[k] == b[k - a.len()]);
        }
    }
    assert(a =~= x.subrange(0, a.len() as int));
    assert(c =~= y.subrange(0, c.len() as int));
    assert(b =~= x.subrange(a.len() as int, x.len() as int));
    assert(d =~= y.subrange(c.len() as int, y.len() as int));
}

/// Different playbook and task pairs give different hashed messages, so their
/// identities differ unless SHA-224 collides.
pub proof fn lemma_task_message_injective(p1: Seq<char>, t1: Seq<char>, p2: Seq<char>, t2: Seq<char>)
    requires
        task_message(p1, t1) == task_message(p2, t2),
    ensures
        p1 == p2,
        t1 == t2,
{
    lemma_utf8_no_separator(p1);
    lemma_utf8_no_separator(p2);
    lemma_split_at_separator(encode_utf8(p1), encode_utf8(t1), encode_utf8(p2), encode_utf8(t2));
    lemma_utf8_injective(p1, p2);
    lemma_utf8_injective(t1, t2);
}

/// Different token sequences give different hashed messages, so their identities
/// differ unless SHA-224 collides.
pub proof fn lemma_command_bytes_injective(c1: Seq<Seq<char>>, c2: Seq<Seq<char>>)
    requires
        command_bytes(c1) == command_bytes(c2),
    ensures
        c1 == c2,
    decreases c1.len(),
{
    if c1.len() == 0 || c2.len() == 0 {
        if c1.len() > 0 {
            assert(command_bytes(c1).len() > 0);
        }
        if c2.len() > 0 {
            assert(command_bytes(c2).len() > 0);
        }
        assert(c1 =~= c2);
    } else {
        let a = command_bytes(c1.drop_last());
        let c = command_bytes(c2.drop_last());
        let b = encode_utf8(c1.last());
        let d = encode_utf8(c2.last());
        let x = a + b + seq![SEPARATOR];
        let y = c + d + seq![SEPARATOR];
        assert(a + b =~= x.drop_last());
        assert(c + d =~= y.drop_last());
        lemma_utf8_no_separator(c1.last());
        lemma_utf8_no_separator(c2.last());
        lemma_ends_with_separator(c1.drop_last());
        lemma_ends_with_separator(c2.drop_last());
        lemma_split_after_last_separator(a, b, c, d);
        lemma_command_bytes_injective(c1.drop_last(), c2.drop_last());
        lemma_utf8_injective(c1.last(), c2.last());
        assert(c1 =~= c1.drop_last().push(c1.last()));
        assert(c2 =~= c2.drop_last().push(c2.last()));
    }
}

proof fn lemma_ends_with_separator(c: Seq<Seq<char>>)
    ensures
        command_bytes(c).len() == 0 || command_bytes(c).last() == SEPARATOR,
{
}

/// Derivation is deterministic: the same playbook and task give the same identity.
pub proof fn lemma_task_identity_deterministic(p1: Seq<char>, t1: Seq<char>, p2: Seq<char>, t2: Seq<char>)
    requires
        p1 == p2,
        t1 == t2,
    ensures
        task_identity(p1, t1) == task_identity(p2, t2),
{
}

/// Derivation is deterministic: the same command tokens give the same identity.
pub proof fn lemma_command_identity_deterministic(c1: Seq<Seq<char>>, c2: Seq<Seq<char>>)
    requires
        c1 == c2,
    ensures
        command_identity(c1) == command_identity(c2),
{
}

/// The two schemes never produce the same name, and both carry a recognised prefix.
pub proof fn lemma_schemes_disjoint(playbook: Seq<char>, task: Seq<char>, command: Seq<Seq<char>>)
    ensures
        task_identity(playbook, task) != command_identity(command),
        has_identity_prefix(task_identity(playbook, task)),
        has_identity_prefix(command_identity(command)),
{
    let a = task_identity(playbook, task);
    let b = command_identity(command);
    assert(a[0] == 'r');
    assert(b[0] == 'g');
    assert(a.subrange(0, 4) =~= task_prefix());
    assert(b.subrange(0, 4) =~= command_prefix());
}

} // verus!
