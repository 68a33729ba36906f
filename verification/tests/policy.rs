use contribution_ledger::amount::{parse_amount, to_decimal};
use contribution_ledger::error::ContractError;
use contribution_ledger::policy::{on_contribute, recompute, RecordPolicy};
use contribution_ledger::state::{Transaction, TOTAL, TRANSACTIONS};

#[test]
fn accumulate_adds_to_the_prior_record() {
    assert_eq!(RecordPolicy::Accumulate.apply(None, 12).unwrap(), 12);
    assert_eq!(RecordPolicy::Accumulate.apply(Some(12), 32).unwrap(), 44);
    assert_eq!(RecordPolicy::Accumulate.apply(Some(0), 0).unwrap(), 0);
    assert_eq!(RecordPolicy::Accumulate.apply(Some(u128::MAX - 1), 1).unwrap(), u128::MAX);
    assert_eq!(RecordPolicy::Accumulate.apply(None, u128::MAX).unwrap(), u128::MAX);
}

#[test]
fn accumulate_fails_on_overflow() {
    let err = RecordPolicy::Accumulate.apply(Some(u128::MAX), 1).unwrap_err();
    assert!(matches!(err, ContractError::ArithmeticOverflow));
    let err = RecordPolicy::Accumulate.apply(Some(1), u128::MAX).unwrap_err();
    assert!(matches!(err, ContractError::ArithmeticOverflow));
}

#[test]
fn overwrite_keeps_the_last_contribution() {
    assert_eq!(RecordPolicy::Overwrite.apply(None, 12).unwrap(), 12);
    assert_eq!(RecordPolicy::Overwrite.apply(Some(12), 32).unwrap(), 32);
    assert_eq!(RecordPolicy::Overwrite.apply(Some(32), 12).unwrap(), 12);
    assert_eq!(RecordPolicy::Overwrite.apply(Some(u128::MAX), u128::MAX).unwrap(), u128::MAX);
}

#[test]
fn the_ledger_accumulates() {
    assert_eq!(contribution_ledger::contract::RECORD_POLICY, RecordPolicy::Accumulate);
}

#[test]
fn running_total_grows_by_the_submitted_amount() {
    assert_eq!(on_contribute(0, 12).unwrap(), 12);
    assert_eq!(on_contribute(12, 32).unwrap(), 44);
    assert_eq!(on_contribute(u128::MAX, 0).unwrap(), u128::MAX);
    let err = on_contribute(u128::MAX, 1).unwrap_err();
    assert!(matches!(err, ContractError::ArithmeticOverflow));
}

#[test]
fn recompute_sums_all_records() {
    assert_eq!(recompute(&vec![]).unwrap(), 0);
    assert_eq!(recompute(&vec![10, 5]).unwrap(), 15);
    assert_eq!(recompute(&vec![110, 5]).unwrap(), 115);
    assert_eq!(recompute(&vec![u128::MAX - 3, 1, 2, 0]).unwrap(), u128::MAX);
}

#[test]
fn recompute_fails_on_overflow_during_the_fold() {
    let err = recompute(&vec![u128::MAX, 1]).unwrap_err();
    assert!(matches!(err, ContractError::ArithmeticOverflow));
    let err = recompute(&vec![1, u128::MAX, 0, 0]).unwrap_err();
    assert!(matches!(err, ContractError::ArithmeticOverflow));
}

#[test]
fn decimal_text_of_amounts() {
    assert_eq!(to_decimal(0), "0");
    assert_eq!(to_decimal(7), "7");
    assert_eq!(to_decimal(10), "10");
    assert_eq!(to_decimal(12), "12");
    assert_eq!(to_decimal(44), "44");
    assert_eq!(to_decimal(115), "115");
    assert_eq!(to_decimal(1000000), "1000000");
    assert_eq!(to_decimal(u128::MAX), "340282366920938463463374607431768211455");
}

#[test]
fn amounts_are_read_from_decimal_text() {
    assert_eq!(parse_amount("0").unwrap(), 0);
    assert_eq!(parse_amount("12").unwrap(), 12);
    assert_eq!(parse_amount("+12").unwrap(), 12);
    assert_eq!(parse_amount("007").unwrap(), 7);
    assert_eq!(parse_amount("340282366920938463463374607431768211455").unwrap(), u128::MAX);
    assert_eq!(parse_amount("0340282366920938463463374607431768211455").unwrap(), u128::MAX);
}

#[test]
fn text_that_is_no_amount_is_a_validation_error() {
    let rejected = vec![
        "",
        "+",
        "-1",
        "-0",
        "++1",
        "1+",
        " 1",
        "1 ",
        "1.0",
        "1e3",
        "0x10",
        "twelve",
        "١٢",
        "12\n",
        "340282366920938463463374607431768211456",
        "999999999999999999999999999999999999999999",
        "3402823669209384634633746074317682114550",
    ];
    for text in rejected.iter() {
        let err = parse_amount(text).unwrap_err();
        assert!(matches!(err, ContractError::Validation), "{:?}", text);
    }
}

#[test]
fn reading_agrees_with_the_standard_parser() {
    let texts = vec!["0", "+0", "1", "+1", "-1", "", "+", "a", "18446744073709551616", "00", "1_000"];
    for text in texts.iter() {
        let ours = parse_amount(text).ok();
        let theirs = text.parse::<u128>().ok();
        assert_eq!(ours, theirs, "{:?}", text);
    }
}

#[test]
fn decimal_text_reads_back() {
    let amounts: Vec<u128> = vec![0, 1, 9, 10, 99, 100, 12345678901234567890, u128::MAX - 1, u128::MAX];
    for amount in amounts.iter() {
        assert_eq!(parse_amount(&to_decimal(*amount)).unwrap(), *amount);
        assert_eq!(to_decimal(*amount), amount.to_string());
    }
}

#[test]
fn the_layout_names() {
    assert_eq!(TOTAL, "total");
    assert_eq!(TRANSACTIONS, "transaction");
}

#[test]
fn a_transaction_holds_sender_and_amount() {
    let t = Transaction { amount: 12, sender: String::from("sender") };
    let copy = t.clone();
    assert_eq!(t, copy);
    assert_eq!(copy.amount, 12);
    assert_eq!(copy.sender, "sender");
    assert_ne!(t, Transaction { amount: 13, sender: String::from("sender") });
}
