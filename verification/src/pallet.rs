//! The Zeropool pallet's decisions: storing a verification key per account, with a deposit
//! reserved once, and verifying a proof against the caller's stored key.
use vstd::prelude::*;
use std::collections::HashMap;
use crate::types::{U256, VK, VKModel, Proof, g1_zero, g2_zero};
use crate::codec::{dec_vk, dec_proof, dec_inputs};
use crate::decode::{decode_vk, decode_proof, decode_inputs};
use crate::groth16::{groth16verify, spec_groth16verify};

verus! {

broadcast use vstd::std_specs::hash::group_hash_axioms;

#[verifier::external_type_specification]
#[verifier::external_body]
pub struct ExDecodeError(base64::DecodeError);

/// The bytes that base64 0.13's `decode` gives for `input` under its standard alphabet;
/// `None` where it refuses the input.
pub uninterp spec fn base64_decoded(input: Seq<u8>) -> Option<Seq<u8>>;

/// base64's `decode` (standard alphabet; missing padding is accepted, excess padding, other
/// characters and whitespace are refused). Claimed: the result is the name `base64_decoded`
/// applied to the input.
#[verifier::external_body]
fn base64_decode(input: &[u8]) -> (r: Result<Vec<u8>, base64::DecodeError>)
    ensures
        r is Ok <==> base64_decoded(input@) is Some,
        r matches Ok(v) ==> base64_decoded(input@) == Some(v@),
{
    base64::decode(input)
}

/// The least length of a key or a proof submission.
pub const MIN_LENGTH: usize = 64;

/// The greatest length of a key or a proof submission.
pub const MAX_LENGTH: usize = 8192;

/// What the pallet announces.
#[derive(Debug, Clone, Copy, PartialEq, Eq)]
pub enum Event {
    VerificationKeySet(u64),
    VerificationKeyUpdated(u64),
    VerificationSuccessful(u64),
    VerificationFailed(u64),
}

/// Why a call is refused.
#[derive(Debug, Clone, Copy, PartialEq, Eq)]
pub enum ZeropoolError {
    /// The call is not signed by an account.
    BadOrigin,
    /// The submission has fewer than `MIN_LENGTH` bytes.
    TooShort,
    /// The submission has more than `MAX_LENGTH` bytes.
    TooLong,
    /// The proof was not accepted, could not be read, or the caller has no key.
    VerificationFailed,
}

/// A proof submission: the base64 text of a proof and of its public inputs.
#[derive(Debug, Clone)]
pub struct Jsonproofinput {
    pub proof: Vec<u8>,
    pub input: Vec<u8>,
}

/// What storing a key takes next: keep the deposit already held for an update, or reserve
/// a new one.
#[derive(Debug, Clone, Copy, PartialEq, Eq)]
pub enum SetVkStep {
    Update { deposit: u128 },
    Reserve { amount: u128 },
}

/// The pallet's storage: for each account its key (base64 text) and the deposit held for it.
pub struct Zeropool {
    keys: HashMap<u64, (Vec<u8>, u128)>,
    reservation_fee: u128,
}

/// What the pallet holds: each account's key bytes and deposit, and the fee for a new key.
pub struct ZeropoolModel {
    pub keys: Map<u64, (Seq<u8>, u128)>,
    pub fee: u128,
}

impl View for Zeropool {
    type V = ZeropoolModel;

    closed spec fn view(&self) -> ZeropoolModel {
        ZeropoolModel {
            keys: self.keys@.map_values(|e: (Vec<u8>, u128)| (e.0@, e.1)),
            fee: self.reservation_fee,
        }
    }
}

/// The refusal of a submission of `len` bytes for its length, if any.
pub open spec fn length_error(len: nat) -> Option<ZeropoolError> {
    if len < MIN_LENGTH {
        Some(ZeropoolError::TooShort)
    } else if len > MAX_LENGTH {
        Some(ZeropoolError::TooLong)
    } else {
        None
    }
}

/// The first step of storing a key of `len` bytes.
pub open spec fn spec_set_vk_begin(m: ZeropoolModel, origin: Option<u64>, len: nat) -> Result<
    (u64, SetVkStep),
    ZeropoolError,
> {
    match origin {
        None => Err(ZeropoolError::BadOrigin),
        Some(s) => match length_error(len) {
            Some(e) => Err(e),
            None => if m.keys.contains_key(s) {
                Ok((s, SetVkStep::Update { deposit: m.keys[s].1 }))
            } else {
                Ok((s, SetVkStep::Reserve { amount: m.fee }))
            },
        },
    }
}

/// The deposit that a step holds for the key.
pub open spec fn step_deposit(step: SetVkStep) -> u128 {
    match step {
        SetVkStep::Update { deposit } => deposit,
        SetVkStep::Reserve { amount } => amount,
    }
}

/// The event that finishing a step announces.
pub open spec fn step_event(sender: u64, step: SetVkStep) -> Event {
    match step {
        SetVkStep::Update { .. } => Event::VerificationKeyUpdated(sender),
        SetVkStep::Reserve { .. } => Event::VerificationKeySet(sender),
    }
}

/// The bytes that base64 text stands for, or none where it is not base64.
pub open spec fn b64_or_empty(s: Seq<u8>) -> Seq<u8> {
    match base64_decoded(s) {
        Some(b) => b,
        None => Seq::empty(),
    }
}

/// The all-zero verification key with no `ic` points.
pub open spec fn vk_zero() -> VKModel {
    VKModel { alpha: g1_zero(), beta: g2_zero(), gamma: g2_zero(), delta: g2_zero(), ic: Seq::empty() }
}

/// The all-zero proof.
pub open spec fn proof_zero() -> Proof {
    Proof { a: g1_zero(), b: g2_zero(), c: g1_zero() }
}

/// The key that stored base64 text stands for; the zero key where it cannot be read.
pub open spec fn vk_of(text: Seq<u8>) -> VKModel {
    match dec_vk(b64_or_empty(text)) {
        Some(v) => v,
        None => vk_zero(),
    }
}

/// The proof that base64 text stands for; the zero proof where it cannot be read.
pub open spec fn proof_of(text: Seq<u8>) -> Proof {
    match dec_proof(b64_or_empty(text)) {
        Some(p) => p,
        None => proof_zero(),
    }
}

/// The public inputs that base64 text stands for; none where they cannot be read.
pub open spec fn inputs_of(text: Seq<u8>) -> Seq<U256> {
    match dec_inputs(b64_or_empty(text)) {
        Some(s) => s,
        None => Seq::empty(),
    }
}

/// Whether the proof and inputs in base64 text are accepted under the key in base64 text.
pub open spec fn verdict(vk_text: Seq<u8>, proof_text: Seq<u8>, input_text: Seq<u8>) -> bool {
    spec_groth16verify(vk_of(vk_text), proof_of(proof_text), inputs_of(input_text))
}

/// The event and result of a proof submission of `len` bytes, read as `parsed` (the proof
/// text and the inputs text), from `origin`.
pub open spec fn spec_test_groth16verify(
    m: ZeropoolModel,
    origin: Option<u64>,
    len: nat,
    parsed: Option<(Seq<u8>, Seq<u8>)>,
) -> (Option<Event>, Result<(), ZeropoolError>) {
    match origin {
        None => (None, Err(ZeropoolError::BadOrigin)),
        Some(s) => match length_error(len) {
            Some(e) => (None, Err(e)),
            None => match parsed {
                None => (Some(Event::VerificationFailed(s)), Err(ZeropoolError::VerificationFailed)),
                Some(pi) => if !m.keys.contains_key(s) {
                    (Some(Event::VerificationFailed(s)), Err(ZeropoolError::VerificationFailed))
                } else if verdict(m.keys[s].0, pi.0, pi.1) {
                    (Some(Event::VerificationSuccessful(s)), Ok(()))
                } else {
                    (Some(Event::VerificationFailed(s)), Err(ZeropoolError::VerificationFailed))
                },
            },
        },
    }
}

/// The text of a parsed submission.
pub open spec fn parsed_view(parsed: Option<Jsonproofinput>) -> Option<(Seq<u8>, Seq<u8>)> {
    match parsed {
        Some(p) => Some((p.proof@, p.input@)),
        None => None,
    }
}

/// The bytes that base64 text stands for, or none.
fn decode_b64_or_empty(text: &[u8]) -> (r: Vec<u8>)
    ensures
        r@ == b64_or_empty(text@),
{
    match base64_decode(text) {
        Ok(v) => v,
        Err(_) => Vec::new(),
    }
}

impl Zeropool {
    /// A pallet with no keys stored, which reserves `reservation_fee` for each new key.
    pub fn new(reservation_fee: u128) -> (r: Zeropool)
        ensures
            r@.keys == Map::<u64, (Seq<u8>, u128)>::empty(),
            r@.fee == reservation_fee,
    {
        let r = Zeropool { keys: HashMap::new(), reservation_fee };
        assert(r@.keys =~= Map::<u64, (Seq<u8>, u128)>::empty());
        r
    }

    /// The key text and deposit stored for `who`.
    pub fn stored_key(&self, who: u64) -> (r: Option<(Vec<u8>, u128)>)
        ensures
            match r {
                Some(e) => self@.keys.contains_key(who) && self@.keys[who] == (e.0@, e.1),
                None => !self@.keys.contains_key(who),
            },
    {
        match self.keys.get(&who) {
            Some(e) => Some((e.0.clone(), e.1)),
            None => None,
        }
    }

    /// The first step of `set_vk`: checks the origin and the length of `vkb` and says
    /// whether the deposit already held is kept (the caller has a key) or a new one of the
    /// reservation fee must be reserved.
    pub fn set_vk_begin(&self, origin: Option<u64>, vkb: &Vec<u8>) -> (r: Result<
        (u64, SetVkStep),
        ZeropoolError,
    >)
        ensures
            r == spec_set_vk_begin(self@, origin, vkb@.len()),
    {
        let sender = match origin {
            Some(s) => s,
            None => return Err(ZeropoolError::BadOrigin),
        };
        if vkb.len() < MIN_LENGTH {
            return Err(ZeropoolError::TooShort);
        }
        if vkb.len() > MAX_LENGTH {
            return Err(ZeropoolError::TooLong);
        }
        match self.keys.get(&sender) {
            Some(e) => Ok((sender, SetVkStep::Update { deposit: e.1 })),
            None => Ok((sender, SetVkStep::Reserve { amount: self.reservation_fee })),
        }
    }

    /// The last step of `set_vk`, once any new deposit is reserved: stores `vkb` with the
    /// step's deposit for `sender` and announces a new or an updated key. The step must be
    /// the one that `set_vk_begin` gave for this signer and key.
    pub fn set_vk_finish(&mut self, sender: u64, vkb: Vec<u8>, step: SetVkStep) -> (ev: Event)
        requires
            spec_set_vk_begin(old(self)@, Some(sender), vkb@.len()) == Ok::<
                (u64, SetVkStep),
                ZeropoolError,
            >((sender, step)),
        ensures
            final(self)@.keys == old(self)@.keys.insert(sender, (vkb@, step_deposit(step))),
            final(self)@.fee == old(self)@.fee,
            ev == step_event(sender, step),
    {
        let deposit = match step {
            SetVkStep::Update { deposit } => deposit,
            SetVkStep::Reserve { amount } => amount,
        };
        let ghost v = vkb@;
        self.keys.insert(sender, (vkb, deposit));
        assert(self@.keys =~= old(self)@.keys.insert(sender, (v, deposit)));
        match step {
            SetVkStep::Update { .. } => Event::VerificationKeyUpdated(sender),
            SetVkStep::Reserve { .. } => Event::VerificationKeySet(sender),
        }
    }

    /// Verifies a proof submission of `jproofinput` (read by the caller into `parsed`)
    /// against the key stored for the signer: the event announced, if any, and the result.
    pub fn test_groth16verify(
        &self,
        origin: Option<u64>,
        jproofinput: &[u8],
        parsed: Option<Jsonproofinput>,
    ) -> (r: (Option<Event>, Result<(), ZeropoolError>))
        ensures
            r == spec_test_groth16verify(self@, origin, jproofinput@.len(), parsed_view(parsed)),
    {
        let sender = match origin {
            Some(s) => s,
            None => return (None, Err(ZeropoolError::BadOrigin)),
        };
        if jproofinput.len() < MIN_LENGTH {
            return (None, Err(ZeropoolError::TooShort));
        }
        if jproofinput.len() > MAX_LENGTH {
            return (None, Err(ZeropoolError::TooLong));
        }
        let proofinput = match parsed {
            Some(p) => p,
            None => {
                return (
                    Some(Event::VerificationFailed(sender)),
                    Err(ZeropoolError::VerificationFailed),
                )
            },
        };
        let proof = decode_b64_or_empty(proofinput.proof.as_slice());
        let proofd = match decode_proof(proof.as_slice()) {
            Some(p) => p,
            None => Proof::default(),
        };
        let input = decode_b64_or_empty(proofinput.input.as_slice());
        let inputd = match decode_inputs(input.as_slice()) {
            Some(v) => v,
            None => Vec::new(),
        };
        let vks = match self.keys.get(&sender) {
            Some(e) => &e.0,
            None => {
                return (
                    Some(Event::VerificationFailed(sender)),
                    Err(ZeropoolError::VerificationFailed),
                )
            },
        };
        let vk = decode_b64_or_empty(vks.as_slice());
        let vkd = match decode_vk(vk.as_slice()) {
            Some(v) => v,
            None => VK::default(),
        };
        proof {
            assert(vkd@.ic =~= vk_of(self@.keys[sender].0).ic);
        }
        if groth16verify(vkd, proofd, inputd) {
            (Some(Event::VerificationSuccessful(sender)), Ok(()))
        } else {
            (Some(Event::VerificationFailed(sender)), Err(ZeropoolError::VerificationFailed))
        }
    }
}


/// The model after `set_vk` has gone through for `sender` with key text `vkb`.
pub open spec fn after_set_vk(m: ZeropoolModel, sender: u64, vkb: Seq<u8>) -> ZeropoolModel {
    match spec_set_vk_begin(m, Some(sender), vkb.len()) {
        Ok((s, step)) => ZeropoolModel {
            keys: m.keys.insert(s, (vkb, step_deposit(step))),
            fee: m.fee,
        },
        Err(_) => m,
    }
}

/// A key stored by `set_vk` is the key that the signer's proofs are then verified against:
/// a submission of acceptable length is accepted exactly when its proof and inputs verify
/// under the stored key text.
pub proof fn lemma_verify_uses_stored_key(
    m: ZeropoolModel,
    sender: u64,
    vkb: Seq<u8>,
    len: nat,
    pi: (Seq<u8>, Seq<u8>),
)
    requires
        length_error(vkb.len()) is None,
        length_error(len) is None,
    ensures
        spec_test_groth16verify(after_set_vk(m, sender, vkb), Some(sender), len, Some(pi)) == if verdict(
            vkb,
            pi.0,
            pi.1,
        ) {
            (Some(Event::VerificationSuccessful(sender)), Ok::<(), ZeropoolError>(()))
        } else {
            (Some(Event::VerificationFailed(sender)), Err(ZeropoolError::VerificationFailed))
        },
{
}

/// Storing a key again keeps the deposit held for the first one, and storing a first key
/// holds a deposit of the reservation fee.
pub proof fn lemma_set_vk_deposit(m: ZeropoolModel, sender: u64, vkb: Seq<u8>)
    requires
        length_error(vkb.len()) is None,
    ensures
        after_set_vk(m, sender, vkb).keys[sender].1 == if m.keys.contains_key(sender) {
            m.keys[sender].1
        } else {
            m.fee
        },
        after_set_vk(m, sender, vkb).keys[sender].0 == vkb,
{
}

/// Storing a key for one account leaves every other account's key and deposit as they were.
pub proof fn lemma_set_vk_other_accounts(m: ZeropoolModel, sender: u64, vkb: Seq<u8>, other: u64)
    requires
        other != sender,
    ensures
        after_set_vk(m, sender, vkb).keys.contains_key(other) == m.keys.contains_key(other),
        m.keys.contains_key(other) ==> after_set_vk(m, sender, vkb).keys[other] == m.keys[other],
{
}

/// A submission from an account with no stored key is refused with `VerificationFailed`,
/// whatever it holds.
pub proof fn lemma_verify_without_key(
    m: ZeropoolModel,
    sender: u64,
    len: nat,
    parsed: Option<(Seq<u8>, Seq<u8>)>,
)
    requires
        !m.keys.contains_key(sender),
        length_error(len) is None,
    ensures
        spec_test_groth16verify(m, Some(sender), len, parsed) == (
            Some(Event::VerificationFailed(sender)),
            Err::<(), ZeropoolError>(ZeropoolError::VerificationFailed),
        ),
{
}

} // verus!
