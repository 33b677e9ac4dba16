//! Gossip identities: the hash under which a topic is registered, and the
//! deterministic message id that enables duplicate suppression across the
//! overlay. The id of a message is the base58 form of its source peer
//! (computed by the shell, which owns the peer values) followed by the
//! decimal form of its sequence number, 0 when it carries none.

use vstd::prelude::*;

verus! {

/// The hash string under which gossip registers a topic name.
pub uninterp spec fn topic_hash_of(topic: Seq<char>) -> Seq<char>;

/// Relies on libp2p::gossipsub::Sha256Topic::hash: the topic hash is the
/// base64 form of the SHA-256 digest of the protobuf-framed topic name, a
/// function of the name alone.
#[verifier::external_body]
pub fn topic_hash(topic: &String) -> (r: String)
    ensures
        r@ == topic_hash_of(topic@),
{
    libp2p::gossipsub::Sha256Topic::new(topic.as_str()).hash().into_string()
}

/// The decimal digit characters of `n`, most significant first.
pub open spec fn dec_digits(n: nat) -> Seq<char>
    decreases n,
{
    if n < 10 {
        seq![digit_char(n)]
    } else {
        dec_digits(n / 10) + seq![digit_char(n % 10)]
    }
}

/// The character for a single decimal digit.
pub open spec fn digit_char(d: nat) -> char {
    if d == 0 {
        '0'
    } else if d == 1 {
        '1'
    } else if d == 2 {
        '2'
    } else if d == 3 {
        '3'
    } else if d == 4 {
        '4'
    } else if d == 5 {
        '5'
    } else if d == 6 {
        '6'
    } else if d == 7 {
        '7'
    } else if d == 8 {
        '8'
    } else {
        '9'
    }
}

/// One decimal digit as a one-character string.
fn digit_str(d: u64) -> (r: String)
    requires
        d < 10,
    ensures
        r@ =~= seq![digit_char(d as nat)],
{
    let s = match d {
        0 => "0",
        1 => "1",
        2 => "2",
        3 => "3",
        4 => "4",
        5 => "5",
        6 => "6",
        7 => "7",
        8 => "8",
        _ => "9",
    };
    proof {
        reveal_strlit("0");
        reveal_strlit("1");
        reveal_strlit("2");
        reveal_strlit("3");
        reveal_strlit("4");
        reveal_strlit("5");
        reveal_strlit("6");
        reveal_strlit("7");
        reveal_strlit("8");
        reveal_strlit("9");
    }
    String::from_str(s)
}

/// The decimal form of `n`.
pub fn dec_string(n: u64) -> (r: String)
    ensures
        r@ == dec_digits(n as nat),
    decreases n,
{
    if n < 10 {
        digit_str(n)
    } else {
        let mut r = dec_string(n / 10);
        let d = digit_str(n % 10);
        r.append(d.as_str());
        r
    }
}

/// The gossip message id: the source peer's base58 form followed by the
/// decimal sequence number, 0 standing in when the message carries none.
pub fn gossipsub_msg_id(source_base58: &String, seq_no: Option<u64>) -> (r: String)
    ensures
        r@ == source_base58@ + dec_digits(
            match seq_no {
                Some(n) => n as nat,
                None => 0,
            },
        ),
{
    let n = match seq_no {
        Some(n) => n,
        None => 0,
    };
    let mut r = source_base58.clone();
    let d = dec_string(n);
    r.append(d.as_str());
    r
}

} // verus!
