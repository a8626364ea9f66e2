use alliance_nft_collection::execute::{
    try_alliance_claim_rewards, try_alliance_delegate, try_alliance_redelegate,
    try_alliance_undelegate, try_mint, Delegation, OutboundMsg, Redelegation,
};
use alliance_nft_collection::state::PoolState;

use terra_proto_rs::alliance::alliance::{
    MsgClaimDelegationRewards, MsgDelegate, MsgRedelegate, MsgUndelegate,
};
use terra_proto_rs::cosmos::base::v1beta1::Coin;
use terra_proto_rs::traits::Message;

fn s(x: &str) -> String {
    x.to_string()
}

#[test]
fn delegate_emits_encoded_protobuf() {
    let mut pool = PoolState::new();
    let msgs = try_alliance_delegate(
        &mut pool,
        &s("owner"),
        &s("owner"),
        &s("pool"),
        &s("asset"),
        &vec![
            Delegation { validator: s("v1"), amount: 100 },
            Delegation { validator: s("v2"), amount: 7 },
        ],
    )
    .unwrap();

    let expected_first = MsgDelegate {
        delegator_address: s("pool"),
        validator_address: s("v1"),
        amount: Some(Coin { denom: s("asset"), amount: s("100") }),
    }
    .encode_to_vec();
    let expected_second = MsgDelegate {
        delegator_address: s("pool"),
        validator_address: s("v2"),
        amount: Some(Coin { denom: s("asset"), amount: s("7") }),
    }
    .encode_to_vec();
    assert_eq!(
        msgs,
        vec![
            OutboundMsg::Stargate {
                type_url: s("/alliance.alliance.MsgDelegate"),
                value: expected_first,
                reply_on_error: false,
            },
            OutboundMsg::Stargate {
                type_url: s("/alliance.alliance.MsgDelegate"),
                value: expected_second,
                reply_on_error: false,
            },
        ]
    );
}

#[test]
fn undelegate_emits_encoded_protobuf() {
    let mut pool = PoolState::new();
    try_alliance_delegate(
        &mut pool,
        &s("owner"),
        &s("owner"),
        &s("pool"),
        &s("asset"),
        &vec![Delegation { validator: s("v1"), amount: 100 }],
    )
    .unwrap();
    let msgs = try_alliance_undelegate(
        &mut pool,
        &s("owner"),
        &s("owner"),
        &s("pool"),
        &s("asset"),
        &vec![Delegation { validator: s("v1"), amount: 25 }],
    )
    .unwrap();

    let expected = MsgUndelegate {
        delegator_address: s("pool"),
        validator_address: s("v1"),
        amount: Some(Coin { denom: s("asset"), amount: s("25") }),
    }
    .encode_to_vec();
    assert_eq!(
        msgs,
        vec![OutboundMsg::Stargate {
            type_url: s("/alliance.alliance.MsgUndelegate"),
            value: expected,
            reply_on_error: false,
        }]
    );
    assert_eq!(pool.list_vals()[0].delegated_amount, 75);
}

#[test]
fn redelegate_emits_encoded_protobuf() {
    let mut pool = PoolState::new();
    try_alliance_delegate(
        &mut pool,
        &s("owner"),
        &s("owner"),
        &s("pool"),
        &s("asset"),
        &vec![Delegation { validator: s("v1"), amount: 100 }],
    )
    .unwrap();
    let msgs = try_alliance_redelegate(
        &mut pool,
        &s("owner"),
        &s("owner"),
        &s("pool"),
        &s("asset"),
        &vec![Redelegation { src_validator: s("v1"), dst_validator: s("v2"), amount: 40 }],
    )
    .unwrap();

    let expected = MsgRedelegate {
        delegator_address: s("pool"),
        validator_src_address: s("v1"),
        validator_dst_address: s("v2"),
        amount: Some(Coin { denom: s("asset"), amount: s("40") }),
    }
    .encode_to_vec();
    assert_eq!(
        msgs,
        vec![OutboundMsg::Stargate {
            type_url: s("/alliance.alliance.MsgRedelegate"),
            value: expected,
            reply_on_error: false,
        }]
    );
}

#[test]
fn claim_fans_out_per_validator_and_schedules_settle() {
    let mut pool = PoolState::new();
    try_mint(&mut pool, &s("1"));
    try_alliance_delegate(
        &mut pool,
        &s("owner"),
        &s("owner"),
        &s("pool"),
        &s("asset"),
        &vec![
            Delegation { validator: s("vala"), amount: 1 },
            Delegation { validator: s("valb"), amount: 2 },
        ],
    )
    .unwrap();

    let msgs = try_alliance_claim_rewards(&mut pool, &s("pool"), &s("asset"), &vec![], 0)
        .unwrap();

    let claim = |validator: &str| MsgClaimDelegationRewards {
        delegator_address: s("pool"),
        validator_address: s(validator),
        denom: s("asset"),
    }
    .encode_to_vec();
    assert_eq!(
        msgs,
        vec![
            OutboundMsg::Stargate {
                type_url: s("/alliance.alliance.MsgClaimDelegationRewards"),
                value: claim("vala"),
                reply_on_error: true,
            },
            OutboundMsg::Stargate {
                type_url: s("/alliance.alliance.MsgClaimDelegationRewards"),
                value: claim("valb"),
                reply_on_error: true,
            },
            OutboundMsg::SettleCallback { contract_addr: s("pool") },
        ]
    );
}
