use caliburn::errors::Error;
use caliburn::ledger::Ledger;
use caliburn::task_board::TaskBoard;
use caliburn::types::{FundsExchange, Task, TaskHash, TaskKind};

const ISSUER: u64 = 1;
const H: TaskHash = TaskHash { digest: 9, nonce: 0 };

fn done_task(receivers: Vec<u64>) -> Task {
    Task {
        hash: H,
        issuer: ISSUER,
        receivers,
        description: Vec::new(),
        judge_pay: 10,
        pay: 100,
        min_rep: 0,
        kind: TaskKind::Done,
        history: vec![(TaskKind::Published, 0)],
        req_subjects: Vec::new(),
        delivery_certificate: 0,
    }
}

#[test]
fn reward_splits_the_pool_with_the_last_receiver_absorbing_the_remainder() {
    let mut board = TaskBoard::new();
    let mut ledger = Ledger::new();
    for account in [2u64, 3, 4] {
        ledger.set_balance(account, 0);
    }
    board.issuer_pay_pool.set(ISSUER, H, 100);
    let task = done_task(vec![2, 3, 4]);
    board.exchange_of_funds(&mut ledger, &task, FundsExchange::RecvReward).unwrap();
    // pay = 100 over 3 receivers: shares 33, 33, 34 — zero remainder
    assert_eq!(ledger.balance_of(2), 33);
    assert_eq!(ledger.balance_of(3), 33);
    assert_eq!(ledger.balance_of(4), 34);
    assert_eq!(board.issuer_pay_pool.amount_of(ISSUER, H), 0);
}

#[test]
fn reward_requires_a_done_task_and_a_team() {
    let mut board = TaskBoard::new();
    let mut ledger = Ledger::new();
    ledger.set_balance(2, 0);
    let mut task = done_task(vec![2]);
    task.kind = TaskKind::Arbitration;
    let r = board.exchange_of_funds(&mut ledger, &task, FundsExchange::RecvReward);
    assert!(matches!(r, Err(Error::FundsRecvRewardWrongTime)));
    let empty = done_task(vec![]);
    let r = board.exchange_of_funds(&mut ledger, &empty, FundsExchange::RecvReward);
    assert!(matches!(r, Err(Error::TaskRecvEmpty)));
}

#[test]
fn reward_to_a_missing_account_fails_and_moves_nothing() {
    let mut board = TaskBoard::new();
    let mut ledger = Ledger::new();
    ledger.set_balance(2, 0);
    board.issuer_pay_pool.set(ISSUER, H, 100);
    // receiver 3 has no ledger account
    let task = done_task(vec![2, 3]);
    let r = board.exchange_of_funds(&mut ledger, &task, FundsExchange::RecvReward);
    assert!(matches!(r, Err(Error::AccountMissing)));
    assert_eq!(ledger.balance_of(2), 0);
    assert_eq!(board.issuer_pay_pool.amount_of(ISSUER, H), 100);
}

#[test]
fn issuer_back_without_prior_arbitration_refunds_pay_and_deposit() {
    let mut board = TaskBoard::new();
    let mut ledger = Ledger::new();
    ledger.set_balance(ISSUER, 0);
    board.issuer_pay_pool.set(ISSUER, H, 100);
    board.staking_pay_pool.set(ISSUER, H, 10);
    let mut task = done_task(vec![2]);
    task.kind = TaskKind::Failure;
    // the history never recorded an Arbitration step
    board.exchange_of_funds(&mut ledger, &task, FundsExchange::IssuerBack).unwrap();
    assert_eq!(ledger.balance_of(ISSUER), 110);
    assert_eq!(board.issuer_pay_pool.amount_of(ISSUER, H), 0);
    assert_eq!(board.staking_pay_pool.amount_of(ISSUER, H), 0);
}

#[test]
fn issuer_back_after_arbitration_refunds_only_pay() {
    let mut board = TaskBoard::new();
    let mut ledger = Ledger::new();
    ledger.set_balance(ISSUER, 0);
    board.issuer_pay_pool.set(ISSUER, H, 100);
    board.staking_pay_pool.set(ISSUER, H, 10);
    let mut task = done_task(vec![2]);
    task.kind = TaskKind::Failure;
    task.history = vec![(TaskKind::Published, 0), (TaskKind::Arbitration, 4)];
    board.exchange_of_funds(&mut ledger, &task, FundsExchange::IssuerBack).unwrap();
    assert_eq!(ledger.balance_of(ISSUER), 100);
    assert_eq!(board.issuer_pay_pool.amount_of(ISSUER, H), 0);
    // the arbitration deposit stays escrowed
    assert_eq!(board.staking_pay_pool.amount_of(ISSUER, H), 10);
}

#[test]
fn issuer_back_requires_a_failure_task() {
    let mut board = TaskBoard::new();
    let mut ledger = Ledger::new();
    ledger.set_balance(ISSUER, 0);
    let task = done_task(vec![2]);
    let r = board.exchange_of_funds(&mut ledger, &task, FundsExchange::IssuerBack);
    assert!(matches!(r, Err(Error::FundsIssuserBackWrongTime)));
}

#[test]
fn issuer_pay_escrows_both_amounts_or_nothing() {
    let mut board = TaskBoard::new();
    let mut ledger = Ledger::new();
    ledger.set_balance(ISSUER, 105);
    let mut task = done_task(vec![]);
    task.kind = TaskKind::Published;
    // 105 cannot cover pay 100 plus deposit 10
    let r = board.exchange_of_funds(&mut ledger, &task, FundsExchange::IssuerPay);
    assert!(matches!(r, Err(Error::InsufficientFunds)));
    assert_eq!(ledger.balance_of(ISSUER), 105);
    assert_eq!(board.issuer_pay_pool.amount_of(ISSUER, H), 0);
    ledger.set_balance(ISSUER, 110);
    board.exchange_of_funds(&mut ledger, &task, FundsExchange::IssuerPay).unwrap();
    assert_eq!(ledger.balance_of(ISSUER), 0);
    assert_eq!(board.issuer_pay_pool.amount_of(ISSUER, H), 100);
    assert_eq!(board.staking_pay_pool.amount_of(ISSUER, H), 10);
}

#[test]
fn staking_is_idempotent_per_receiver() {
    let mut board = TaskBoard::new();
    let mut ledger = Ledger::new();
    ledger.set_balance(2, 50);
    ledger.set_balance(3, 50);
    let mut task = done_task(vec![2, 3]);
    task.kind = TaskKind::InDelivery;
    board.exchange_of_funds(&mut ledger, &task, FundsExchange::RecvStaking).unwrap();
    assert_eq!(ledger.balance_of(2), 40);
    assert_eq!(ledger.balance_of(3), 40);
    assert_eq!(board.staking_pay_pool.amount_of(2, H), 10);
    // running the staking again takes nothing more
    board.exchange_of_funds(&mut ledger, &task, FundsExchange::RecvStaking).unwrap();
    assert_eq!(ledger.balance_of(2), 40);
    assert_eq!(ledger.balance_of(3), 40);
}

#[test]
fn staking_is_all_or_nothing() {
    let mut board = TaskBoard::new();
    let mut ledger = Ledger::new();
    ledger.set_balance(2, 50);
    ledger.set_balance(3, 5);
    let mut task = done_task(vec![2, 3]);
    task.kind = TaskKind::InDelivery;
    // receiver 3 cannot cover the deposit, so nobody stakes
    let r = board.exchange_of_funds(&mut ledger, &task, FundsExchange::RecvStaking);
    assert!(matches!(r, Err(Error::InsufficientFunds)));
    assert_eq!(ledger.balance_of(2), 50);
    assert_eq!(ledger.balance_of(3), 5);
    assert!(!board.staking_pay_pool.contains(2, H));
}

#[test]
fn ledger_withdraw_and_deposit_behave_exactly() {
    let mut ledger = Ledger::new();
    assert!(!ledger.has_account(7));
    assert_eq!(ledger.balance_of(7), 0);
    let r = ledger.withdraw(7, 1);
    assert!(matches!(r, Err(Error::InsufficientFunds)));
    let r = ledger.deposit_into_existing(7, 1);
    assert!(matches!(r, Err(Error::AccountMissing)));
    ledger.set_balance(7, 10);
    ledger.withdraw(7, 4).unwrap();
    assert_eq!(ledger.balance_of(7), 6);
    ledger.deposit_into_existing(7, 2).unwrap();
    assert_eq!(ledger.balance_of(7), 8);
    ledger.set_balance(7, u64::MAX);
    let r = ledger.deposit_into_existing(7, 1);
    assert!(matches!(r, Err(Error::BalanceOverflow)));
    assert_eq!(ledger.balance_of(7), u64::MAX);
}

#[test]
fn escrow_pool_distinguishes_a_zero_entry_from_no_entry() {
    let mut board = TaskBoard::new();
    assert!(!board.staking_pay_pool.contains(2, H));
    assert_eq!(board.staking_pay_pool.amount_of(2, H), 0);
    board.staking_pay_pool.set(2, H, 0);
    assert!(board.staking_pay_pool.contains(2, H));
    assert_eq!(board.staking_pay_pool.amount_of(2, H), 0);
    board.staking_pay_pool.set(2, H, 5);
    assert_eq!(board.staking_pay_pool.amount_of(2, H), 5);
}

#[test]
fn direct_back_helpers_refund_their_pool() {
    let mut board = TaskBoard::new();
    let mut ledger = Ledger::new();
    ledger.set_balance(ISSUER, 0);
    board.issuer_pay_pool.set(ISSUER, H, 40);
    board.staking_pay_pool.set(ISSUER, H, 7);
    let task = done_task(vec![]);
    board.issuer_back_pay(&mut ledger, &task).unwrap();
    assert_eq!(ledger.balance_of(ISSUER), 40);
    board.issuer_back_judge(&mut ledger, &task).unwrap();
    assert_eq!(ledger.balance_of(ISSUER), 47);
}
