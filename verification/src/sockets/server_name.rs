use vstd::prelude::*;
use vstd::utf8::{
    is_char_boundary, is_char_boundary_iff_not_is_continuation_byte,
    is_char_boundary_start_end_of_seq, length_of_first_scalar, pop_first_scalar, valid_utf8,
    encode_utf8, decode_utf8, is_ascii_chars,
};
use vstd::string::StringSliceAdditionalSpecFns;
use vstd::string::StringExecFns;
use rustls::pki_types::ServerName;

verus! {

broadcast use vstd::utf8::group_utf8_lib;

/// Whether `rustls` accepts `name` as a server name: a DNS name or an IP
/// address.
pub uninterp spec fn spec_is_server_name(name: Seq<char>) -> bool;

/// Calls `ServerName::try_from(&str)` from `rustls::pki_types` and reports
/// whether it succeeded. What it accepts is named, not stated.
#[verifier::external_body]
fn is_server_name(name: &str) -> (r: bool)
    ensures
        r == spec_is_server_name(name@),
{
    ServerName::try_from(name).is_ok()
}

/// `name` wrapped as `p2p.<name>.com`.
fn p2p_server_name(name: &str) -> (r: String)
    ensures
        r@ == seq!['p', '2', 'p', '.'] + name@ + seq!['.', 'c', 'o', 'm'],
{
    let prefix = "p2p.";
    let suffix = ".com";
    proof {
        reveal_strlit("p2p.");
        reveal_strlit(".com");
    }
    let mut r = String::from_str(prefix);
    r.append(name);
    r.append(suffix);
    assert(r@ =~= seq!['p', '2', 'p', '.'] + name@ + seq!['.', 'c', 'o', 'm']);
    r
}

/// The name TLS is given for `name`: the name itself when TLS accepts it,
/// else the name wrapped as `p2p.<name>.com`.
pub open spec fn spec_validated_name(name: Seq<char>) -> Seq<char> {
    if spec_is_server_name(name) {
        name
    } else {
        seq!['p', '2', 'p', '.'] + name + seq!['.', 'c', 'o', 'm']
    }
}

/// A server name TLS accepts: the name itself when it is one, else the
/// name wrapped as `p2p.<name>.com`.
pub fn validate_server_name(server_name: String) -> (r: String)
    ensures
        r@ == spec_validated_name(server_name@),
{
    if is_server_name(server_name.as_str()) {
        server_name
    } else {
        p2p_server_name(server_name.as_str())
    }
}

/// Bytes of `p2p.`.
pub open spec fn spec_p2p_prefix() -> Seq<u8> {
    seq![0x70u8, 0x32u8, 0x70u8, 0x2eu8]
}

/// Bytes of `.com`.
pub open spec fn spec_com_suffix() -> Seq<u8> {
    seq![0x2eu8, 0x63u8, 0x6fu8, 0x6du8]
}

pub open spec fn spec_starts_with_p2p(b: Seq<u8>) -> bool {
    b.len() >= 4 && b.subrange(0, 4) == spec_p2p_prefix()
}

pub open spec fn spec_ends_with_com(b: Seq<u8>) -> bool {
    b.len() >= 4 && b.subrange(b.len() - 4, b.len() as int) == spec_com_suffix()
}

/// `b` without any number of leading `p2p.`.
pub open spec fn spec_trim_p2p(b: Seq<u8>) -> Seq<u8>
    decreases b.len(),
{
    if spec_starts_with_p2p(b) {
        spec_trim_p2p(b.subrange(4, b.len() as int))
    } else {
        b
    }
}

/// `b` without any number of trailing `.com`.
pub open spec fn spec_trim_com(b: Seq<u8>) -> Seq<u8>
    decreases b.len(),
{
    if spec_ends_with_com(b) {
        spec_trim_com(b.subrange(0, b.len() - 4))
    } else {
        b
    }
}

/// The name inside `p2p.<name>.com`: a name with both the prefix and the
/// suffix loses every leading `p2p.` and then every trailing `.com`; any
/// other name stays as it is.
pub open spec fn spec_parse_server_name(b: Seq<u8>) -> Seq<u8> {
    if spec_starts_with_p2p(b) && spec_ends_with_com(b) {
        spec_trim_com(spec_trim_p2p(b))
    } else {
        b
    }
}

proof fn lemma_ascii_boundary_step(bytes: Seq<u8>, i: int)
    requires
        valid_utf8(bytes),
        0 <= i < bytes.len(),
        is_char_boundary(bytes, i),
        bytes[i] < 0x80,
    ensures
        is_char_boundary(bytes, i + 1),
    decreases bytes.len(),
{
    reveal_with_fuel(is_char_boundary, 2);
    let k = length_of_first_scalar(bytes);
    if i == 0 {
        assert(k == 1);
        is_char_boundary_start_end_of_seq(pop_first_scalar(bytes));
    } else {
        let p = pop_first_scalar(bytes);
        assert(i >= k) by {
            if i < k {
                is_char_boundary_iff_not_is_continuation_byte(bytes, i);
            }
        }
        assert(p[i - k] == bytes[i]);
        lemma_ascii_boundary_step(p, i - k);
    }
}

proof fn lemma_ascii_prefix_boundary(bytes: Seq<u8>, k: int)
    requires
        valid_utf8(bytes),
        0 <= k <= bytes.len(),
        forall|j: int| 0 <= j < k ==> bytes[j] < 0x80,
    ensures
        is_char_boundary(bytes, k),
    decreases k,
{
    if k == 0 {
        is_char_boundary_start_end_of_seq(bytes);
    } else {
        lemma_ascii_prefix_boundary(bytes, k - 1);
        lemma_ascii_boundary_step(bytes, k - 1);
    }
}

fn starts_with_at(b: &[u8], at: usize, pat: &[u8; 4]) -> (r: bool)
    requires
        at <= b@.len(),
    ensures
        r == (at + 4 <= b@.len() && b@.subrange(at as int, at + 4) == pat@),
{
    let n = b.len();
    if n - at < 4 {
        return false;
    }
    let ok = b[at] == pat[0] && b[at + 1] == pat[1] && b[at + 2] == pat[2] && b[at + 3] == pat[3];
    proof {
        if ok {
            assert(b@.subrange(at as int, at + 4) =~= pat@);
        } else {
            if b@.subrange(at as int, at + 4) == pat@ {
                assert(b@.subrange(at as int, at + 4)[0] == b@[at as int]);
                assert(b@.subrange(at as int, at + 4)[1] == b@[at + 1]);
                assert(b@.subrange(at as int, at + 4)[2] == b@[at + 2]);
                assert(b@.subrange(at as int, at + 4)[3] == b@[at + 3]);
            }
        }
    }
    ok
}

/// The name inside `p2p.<name>.com` (see [`spec_parse_server_name`]).
pub fn parse_server_name(server_name: &str) -> (r: &str)
    ensures
        r.spec_bytes() == spec_parse_server_name(server_name.spec_bytes()),
{
    let b = server_name.as_bytes();
    let n = b.len();
    let prefix: [u8; 4] = [0x70u8, 0x32u8, 0x70u8, 0x2eu8];
    let suffix: [u8; 4] = [0x2eu8, 0x63u8, 0x6fu8, 0x6du8];
    assert(prefix@ =~= spec_p2p_prefix());
    assert(suffix@ =~= spec_com_suffix());
    if n < 4 || !starts_with_at(b, 0, &prefix) || !starts_with_at(b, n - 4, &suffix) {
        return server_name;
    }
    let ghost bytes = b@;
    let mut a: usize = 0;
    assert(bytes.subrange(0, n as int) =~= bytes);
    while starts_with_at(b, a, &prefix)
        invariant
            b@ == bytes,
            prefix@ == spec_p2p_prefix(),
            n == bytes.len(),
            a <= n,
            a % 4 == 0,
            spec_trim_p2p(bytes) == spec_trim_p2p(bytes.subrange(a as int, n as int)),
            forall|j: int| 0 <= j < a ==> bytes[j] < 0x80,
        decreases n - a,
    {
        let ghost sub = bytes.subrange(a as int, n as int);
        assert(sub.subrange(0, 4) =~= bytes.subrange(a as int, a + 4));
        assert(sub.subrange(4, sub.len() as int) =~= bytes.subrange(a + 4, n as int));
        assert forall|j: int| 0 <= j < a + 4 implies bytes[j] < 0x80 by {
            if j >= a {
                assert(bytes[j] == bytes.subrange(a as int, a + 4)[j - a]);
                assert(spec_p2p_prefix()[j - a] < 0x80);
            }
        }
        a = a + 4;
    }
    let ghost t = bytes.subrange(a as int, n as int);
    assert(!spec_starts_with_p2p(t)) by {
        if spec_starts_with_p2p(t) {
            assert(t.subrange(0, 4) =~= bytes.subrange(a as int, a + 4));
        }
    }
    assert(spec_trim_p2p(bytes) == t);
    let mut e: usize = n;
    assert(t.subrange(0, (e - a) as int) =~= t);
    while e - a >= 4 && starts_with_at(b, e - 4, &suffix)
        invariant
            b@ == bytes,
            suffix@ == spec_com_suffix(),
            n == bytes.len(),
            t == bytes.subrange(a as int, n as int),
            a <= e <= n,
            spec_trim_com(t) == spec_trim_com(t.subrange(0, (e - a) as int)),
            e < n ==> bytes[e as int] == 0x2e,
        decreases e,
    {
        let ghost sub = t.subrange(0, (e - a) as int);
        assert(sub.subrange(sub.len() - 4, sub.len() as int) =~= bytes.subrange(e - 4, e as int));
        assert(sub.subrange(0, sub.len() - 4) =~= t.subrange(0, (e - 4 - a) as int));
        assert(bytes[e - 4] == bytes.subrange(e - 4, e as int)[0]);
        e = e - 4;
    }
    let ghost u = t.subrange(0, (e - a) as int);
    assert(!spec_ends_with_com(u)) by {
        if spec_ends_with_com(u) {
            assert(u.subrange(u.len() - 4, u.len() as int) =~= bytes.subrange(e - 4, e as int));
        }
    }
    assert(spec_trim_com(t) == u);
    proof {
        assert(valid_utf8(bytes));
        lemma_ascii_prefix_boundary(bytes, a as int);
    }
    let (_, rest) = server_name.split_at(a);
    proof {
        let rb = rest.spec_bytes();
        assert(rb =~= t);
        assert(valid_utf8(rb));
        is_char_boundary_start_end_of_seq(rb);
        if e < n {
            assert(rb[(e - a) as int] == bytes[e as int]);
            is_char_boundary_iff_not_is_continuation_byte(rb, (e - a) as int);
        }
    }
    let (mid, _) = rest.split_at(e - a);
    assert(mid.spec_bytes() =~= u);
    mid
}

/// Parsing undoes the `p2p.<name>.com` wrapping, for every name that the
/// trimming cannot eat into: one that does not end with `.com` and that,
/// followed by `.com`, does not start with `p2p.`.
pub proof fn lemma_parse_unwraps(n: Seq<u8>)
    requires
        !spec_ends_with_com(n),
        !spec_starts_with_p2p(n + spec_com_suffix()),
    ensures
        spec_parse_server_name(spec_p2p_prefix() + n + spec_com_suffix()) == n,
{
    reveal_with_fuel(spec_trim_p2p, 2);
    reveal_with_fuel(spec_trim_com, 2);
    let b = spec_p2p_prefix() + n + spec_com_suffix();
    let tail = n + spec_com_suffix();
    assert(b.subrange(0, 4) =~= spec_p2p_prefix());
    assert(b.subrange(b.len() - 4, b.len() as int) =~= spec_com_suffix());
    assert(b.subrange(4, b.len() as int) =~= tail);
    assert(spec_trim_p2p(b) == tail);
    assert(tail.subrange(tail.len() - 4, tail.len() as int) =~= spec_com_suffix());
    assert(tail.subrange(0, tail.len() - 4) =~= n);
    assert(spec_trim_com(tail) == n);
}

/// The UTF-8 encoding of two strings one after the other is the encoding
/// of the first followed by that of the second.
pub proof fn lemma_encode_utf8_concat(a: Seq<char>, b: Seq<char>)
    ensures
        encode_utf8(a + b) == encode_utf8(a) + encode_utf8(b),
    decreases a.len(),
{
    if a.len() == 0 {
        assert(a + b =~= b);
        assert(encode_utf8(a) =~= Seq::<u8>::empty());
        assert(encode_utf8(a) + encode_utf8(b) =~= encode_utf8(b));
    } else {
        assert((a + b).drop_first() =~= a.drop_first() + b);
        assert((a + b)[0] == a[0]);
        lemma_encode_utf8_concat(a.drop_first(), b);
        assert(encode_utf8(a + b) =~= encode_utf8(a) + encode_utf8(b));
    }
}

/// The characters `p2p.` and `.com` are encoded as the bytes the parser
/// looks for.
pub proof fn lemma_wrapping_bytes()
    ensures
        encode_utf8(seq!['p', '2', 'p', '.']) == spec_p2p_prefix(),
        encode_utf8(seq!['.', 'c', 'o', 'm']) == spec_com_suffix(),
{
    let p = seq!['p', '2', 'p', '.'];
    let c = seq!['.', 'c', 'o', 'm'];
    assert(is_ascii_chars(p));
    assert(is_ascii_chars(c));
    assert(encode_utf8(p) =~= spec_p2p_prefix());
    assert(encode_utf8(c) =~= spec_com_suffix());
}

/// Parsing gives back the name that validation was given, for every name
/// that the trimming cannot eat into: one whose bytes do not end with `.com`
/// and, followed by `.com`, do not start with `p2p.` (so neither a name
/// starting with `p2p.` nor the name `p2p` itself). This holds whether
/// validation kept the name or wrapped it.
pub proof fn lemma_parse_undoes_validate(name: Seq<char>)
    requires
        !spec_ends_with_com(encode_utf8(name)),
        !spec_starts_with_p2p(encode_utf8(name) + spec_com_suffix()),
    ensures
        spec_parse_server_name(encode_utf8(spec_validated_name(name))) == encode_utf8(name),
        decode_utf8(spec_parse_server_name(encode_utf8(spec_validated_name(name)))) == name,
{
    let n = encode_utf8(name);
    if spec_is_server_name(name) {
        if spec_starts_with_p2p(n) {
            assert((n + spec_com_suffix()).subrange(0, 4) =~= n.subrange(0, 4));
        }
    } else {
        let p = seq!['p', '2', 'p', '.'];
        let c = seq!['.', 'c', 'o', 'm'];
        lemma_wrapping_bytes();
        lemma_encode_utf8_concat(p, name);
        lemma_encode_utf8_concat(p + name, c);
        assert(spec_validated_name(name) == p + name + c);
        lemma_parse_unwraps(n);
    }
}

} // verus!
