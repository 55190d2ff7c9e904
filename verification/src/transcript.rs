//! The public transcript of a proof.
//!
//! A transcript is modelled by its history: the messages appended to it and
//! the challenges drawn from it, each with its label, in order.
use crate::group::CompressedGroup;
use crate::scalar::{le_value, order, Scalar};
use merlin::Transcript;
use vstd::prelude::*;
use vstd::string::StringSliceAdditionalSpecFns;

verus! {

/// The transcript of `merlin`.
#[verifier::external_type_specification]
#[verifier::external_body]
pub struct ExTranscript(Transcript);

/// What a transcript has absorbed. An entry is a message (`true`) or a
/// challenge (`false`), with its label and its bytes.
pub type History = Seq<(bool, Seq<char>, Seq<u8>)>;

/// The entries that a transcript has absorbed.
pub uninterp spec fn history(t: Transcript) -> Seq<(bool, Seq<char>, Seq<u8>)>;

/// The bytes that `merlin` draws as a challenge: a function of what was
/// absorbed before, of the label and of the number of bytes.
pub uninterp spec fn merlin_challenge(
    before: Seq<(bool, Seq<char>, Seq<u8>)>,
    label: Seq<char>,
    len: nat,
) -> Seq<u8>;

/// `Transcript::new`: a transcript that has absorbed its label as the message
/// `dom-sep`, and nothing else.
#[verifier::external_body]
pub(crate) fn merlin_new(label: &'static str) -> (t: Transcript)
    requires
        label.spec_bytes().len() <= u32::MAX,
    ensures
        history(t) == seq![(true, "dom-sep"@, label.spec_bytes())],
{
    Transcript::new(label.as_bytes())
}

/// `Transcript::append_message`: absorbs one message. It panics on a message
/// whose length does not fit in 32 bits.
#[verifier::external_body]
pub(crate) fn append_message(t: &mut Transcript, label: &'static str, message: &[u8])
    requires
        message@.len() <= u32::MAX,
    ensures
        history(*final(t)) == history(*old(t)).push((true, label@, message@)),
{
    t.append_message(label.as_bytes(), message)
}

/// `Transcript::challenge_bytes`: draws 64 bytes, and absorbs that it did.
#[verifier::external_body]
fn challenge_bytes(t: &mut Transcript, label: &'static str) -> (r: [u8; 64])
    ensures
        r@ == merlin_challenge(history(*old(t)), label@, 64),
        history(*final(t)) == history(*old(t)).push((false, label@, r@)),
{
    let mut buf = [0u8; 64];
    t.challenge_bytes(label.as_bytes(), &mut buf);
    buf
}

/// `Transcript::clone`: a transcript that has absorbed the same.
#[verifier::external_body]
pub(crate) fn merlin_clone(t: &Transcript) -> (r: Transcript)
    ensures
        history(r) == history(*t),
{
    t.clone()
}

/// The history after a message.
pub open spec fn said(h: History, label: Seq<char>, bytes: Seq<u8>) -> History {
    h.push((true, label, bytes))
}

/// The scalar that a history yields as a challenge.
pub open spec fn challenge(h: History, label: Seq<char>) -> Scalar {
    Scalar::of(le_value(merlin_challenge(h, label, 64)) % order())
}

/// The history after a challenge.
pub open spec fn drawn(h: History, label: Seq<char>) -> History {
    h.push((false, label, merlin_challenge(h, label, 64)))
}

/// `n` challenges under one label, and the history after them.
pub open spec fn challenges(h: History, label: Seq<char>, n: nat) -> (Seq<Scalar>, History)
    decreases n,
{
    if n == 0 {
        (Seq::empty(), h)
    } else {
        let (s, h1) = challenges(h, label, (n - 1) as nat);
        (s.push(challenge(h1, label)), drawn(h1, label))
    }
}

/// As many challenges are drawn as are asked for.
pub proof fn lemma_challenges_len(h: History, label: Seq<char>, n: nat)
    ensures
        challenges(h, label, n).0.len() == n,
    decreases n,
{
    if n > 0 {
        lemma_challenges_len(h, label, (n - 1) as nat);
    }
}

/// The history after each element of a sequence was said under one label.
pub open spec fn said_all(h: History, label: Seq<char>, s: Seq<Scalar>) -> History
    decreases s.len(),
{
    if s.len() == 0 {
        h
    } else {
        said(said_all(h, label, s.drop_last()), label, s.last().encoding())
    }
}

/// The history after a vector of scalars: its elements between two marks.
pub open spec fn said_vector(h: History, label: Seq<char>, s: Seq<Scalar>) -> History {
    said(
        said_all(said(h, label, "begin_append_vector".spec_bytes()), label, s),
        label,
        "end_append_vector".spec_bytes(),
    )
}

/// The history after each point of a sequence was said under one label.
pub open spec fn said_points(h: History, label: Seq<char>, s: Seq<CompressedGroup>) -> History
    decreases s.len(),
{
    if s.len() == 0 {
        h
    } else {
        said(said_points(h, label, s.drop_last()), label, s.last().encoding())
    }
}

/// The history after the name of a protocol.
pub open spec fn named(h: History, name: &str) -> History {
    said(h, "protocol-name"@, name.spec_bytes())
}

/// Says the name of a protocol.
pub fn append_protocol_name(t: &mut Transcript, name: &'static str)
    requires
        name.spec_bytes().len() <= u32::MAX,
    ensures
        history(*final(t)) == named(history(*old(t)), name),
{
    append_message(t, "protocol-name", name.as_bytes())
}

/// Says a scalar.
pub fn append_scalar(t: &mut Transcript, label: &'static str, s: &Scalar)
    ensures
        history(*final(t)) == said(history(*old(t)), label@, s.encoding()),
{
    append_message(t, label, s.to_bytes().as_slice())
}

/// Says a point.
pub fn append_point(t: &mut Transcript, label: &'static str, p: &CompressedGroup)
    ensures
        history(*final(t)) == said(history(*old(t)), label@, p.encoding()),
{
    append_message(t, label, p.to_bytes().as_slice())
}

/// Says a vector of scalars.
pub fn append_scalars(t: &mut Transcript, label: &'static str, s: &Vec<Scalar>)
    ensures
        history(*final(t)) == said_vector(history(*old(t)), label@, s@),
{
    proof {
        reveal_strlit("begin_append_vector");
        reveal_strlit("end_append_vector");
        vstd::utf8::is_ascii_chars_encode_utf8("begin_append_vector"@);
        vstd::utf8::is_ascii_chars_encode_utf8("end_append_vector"@);
    }
    append_message(t, label, "begin_append_vector".as_bytes());
    let ghost h = history(*t);
    let mut i: usize = 0;
    while i < s.len()
        invariant
            i <= s@.len(),
            history(*t) == said_all(h, label@, s@.take(i as int)),
        decreases s@.len() - i,
    {
        append_scalar(t, label, &s[i]);
        i += 1;
        assert(s@.take(i as int).drop_last() =~= s@.take(i - 1));
    }
    assert(s@.take(i as int) =~= s@);
    append_message(t, label, "end_append_vector".as_bytes());
}

/// Says each point of a list under one label.
pub fn append_points(t: &mut Transcript, label: &'static str, s: &Vec<CompressedGroup>)
    ensures
        history(*final(t)) == said_points(history(*old(t)), label@, s@),
{
    let ghost h = history(*t);
    let mut i: usize = 0;
    while i < s.len()
        invariant
            i <= s@.len(),
            history(*t) == said_points(h, label@, s@.take(i as int)),
        decreases s@.len() - i,
    {
        append_point(t, label, &s[i]);
        i += 1;
        assert(s@.take(i as int).drop_last() =~= s@.take(i - 1));
    }
    assert(s@.take(i as int) =~= s@);
}

/// Draws a scalar.
pub fn challenge_scalar(t: &mut Transcript, label: &'static str) -> (r: Scalar)
    ensures
        r == challenge(history(*old(t)), label@),
        history(*final(t)) == drawn(history(*old(t)), label@),
{
    let bytes = challenge_bytes(t, label);
    Scalar::from_bytes_wide(&bytes)
}

/// Draws `n` scalars.
pub fn challenge_vector(t: &mut Transcript, label: &'static str, n: usize) -> (r: Vec<Scalar>)
    ensures
        (r@, history(*final(t))) == challenges(history(*old(t)), label@, n as nat),
        r@.len() == n,
{
    let mut r: Vec<Scalar> = Vec::new();
    let ghost h = history(*t);
    let mut i: usize = 0;
    while i < n
        invariant
            i <= n,
            r@.len() == i,
            (r@, history(*t)) == challenges(h, label@, i as nat),
        decreases n - i,
    {
        let c = challenge_scalar(t, label);
        r.push(c);
        i += 1;
    }
    r
}

} // verus!
