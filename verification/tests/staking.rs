use stackvm::staking::{AccountId, SetRewardRate, Stake, Transfer};

#[test]
fn event_records_carry_their_fields() {
    let token = AccountId([0x2; 32]);
    let user = AccountId([0x4; 32]);

    let stake = Stake { user, amount: 100, staked_at: 7 };
    assert_eq!(stake.user, user);
    assert_eq!(stake.amount, 100);
    assert_eq!(stake.staked_at, 7);

    let rate = SetRewardRate { token_addr: token, new_reward_rate: 10 };
    assert_eq!(rate.token_addr, token);
    assert_eq!(rate.new_reward_rate, 10);

    let transfer = Transfer { from: Some(user), to: None, value: 32 };
    assert_eq!(transfer.from, Some(user));
    assert_eq!(transfer.to, None);
    assert_eq!(transfer.value, 32);
}
