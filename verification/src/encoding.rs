//! Binary encodings of the outbound host-network messages.
//!
//! The claim and delegation commands address the host's delegation module
//! with protobuf-encoded payloads.  The encodings are produced by the
//! `terra-proto-rs` message types; each one is a pure function of the
//! message fields, so the wrappers below name the encoded bytes and the
//! command contracts speak of those names.

use vstd::prelude::*;
use terra_proto_rs::alliance::alliance::{
    MsgClaimDelegationRewards, MsgDelegate, MsgRedelegate, MsgUndelegate,
};
use terra_proto_rs::cosmos::base::v1beta1::Coin;
use terra_proto_rs::traits::Message;

verus! {

/// Protobuf encoding of a delegate message with the given fields.
pub uninterp spec fn delegate_encoding(
    delegator: Seq<char>,
    validator: Seq<char>,
    denom: Seq<char>,
    amount: u128,
) -> Seq<u8>;

/// Protobuf encoding of an undelegate message with the given fields.
pub uninterp spec fn undelegate_encoding(
    delegator: Seq<char>,
    validator: Seq<char>,
    denom: Seq<char>,
    amount: u128,
) -> Seq<u8>;

/// Protobuf encoding of a redelegate message with the given fields.
pub uninterp spec fn redelegate_encoding(
    delegator: Seq<char>,
    src_validator: Seq<char>,
    dst_validator: Seq<char>,
    denom: Seq<char>,
    amount: u128,
) -> Seq<u8>;

/// Protobuf encoding of a claim-delegation-rewards message with the given
/// fields.
pub uninterp spec fn claim_rewards_encoding(
    delegator: Seq<char>,
    validator: Seq<char>,
    denom: Seq<char>,
) -> Seq<u8>;

/// Relies on `prost::Message::encode_to_vec` for
/// `terra_proto_rs::alliance::alliance::MsgDelegate`: the encoding depends
/// on the message fields alone.
#[verifier::external_body]
pub(crate) fn encode_delegate_msg(
    delegator: &String,
    validator: &String,
    denom: &String,
    amount: u128,
) -> (r: Vec<u8>)
    ensures
        r@ == delegate_encoding(delegator@, validator@, denom@, amount),
{
    MsgDelegate {
        delegator_address: delegator.clone(),
        validator_address: validator.clone(),
        amount: Some(Coin { denom: denom.clone(), amount: amount.to_string() }),
    }.encode_to_vec()
}

/// Relies on `prost::Message::encode_to_vec` for
/// `terra_proto_rs::alliance::alliance::MsgUndelegate`: the encoding depends
/// on the message fields alone.
#[verifier::external_body]
pub(crate) fn encode_undelegate_msg(
    delegator: &String,
    validator: &String,
    denom: &String,
    amount: u128,
) -> (r: Vec<u8>)
    ensures
        r@ == undelegate_encoding(delegator@, validator@, denom@, amount),
{
    MsgUndelegate {
        delegator_address: delegator.clone(),
        validator_address: validator.clone(),
        amount: Some(Coin { denom: denom.clone(), amount: amount.to_string() }),
    }.encode_to_vec()
}

/// Relies on `prost::Message::encode_to_vec` for
/// `terra_proto_rs::alliance::alliance::MsgRedelegate`: the encoding depends
/// on the message fields alone.
#[verifier::external_body]
pub(crate) fn encode_redelegate_msg(
    delegator: &String,
    src_validator: &String,
    dst_validator: &String,
    denom: &String,
    amount: u128,
) -> (r: Vec<u8>)
    ensures
        r@ == redelegate_encoding(delegator@, src_validator@, dst_validator@, denom@, amount),
{
    MsgRedelegate {
        delegator_address: delegator.clone(),
        validator_src_address: src_validator.clone(),
        validator_dst_address: dst_validator.clone(),
        amount: Some(Coin { denom: denom.clone(), amount: amount.to_string() }),
    }.encode_to_vec()
}

/// Relies on `prost::Message::encode_to_vec` for
/// `terra_proto_rs::alliance::alliance::MsgClaimDelegationRewards`: the
/// encoding depends on the message fields alone.
#[verifier::external_body]
pub(crate) fn encode_claim_rewards_msg(
    delegator: &String,
    validator: &String,
    denom: &String,
) -> (r: Vec<u8>)
    ensures
        r@ == claim_rewards_encoding(delegator@, validator@, denom@),
{
    MsgClaimDelegationRewards {
        delegator_address: delegator.clone(),
        validator_address: validator.clone(),
        denom: denom.clone(),
    }.encode_to_vec()
}

} // verus!
