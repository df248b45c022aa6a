use dicebot::{
    clean_operand, evaluate, parse_count, roll_token, sanitize, scan, strip_command, Contentful,
    DiceToken, NumError, ParseError, RollResult, Rollable,
};

const LOTS: &str = "\n  >: | Thats a lot of dice, you'll just have to trust me.";

fn chars(s: &str) -> Vec<char> {
    s.chars().collect()
}

#[test]
fn test_roll() {
    match "!roll 1d202d40".roll() {
        Ok(n) => println!("{}", n.to_string()),
        Err(e) => println!("{}", e),
    };
    match "!roll 1d2ferfag23498d892838  j j j j34d 3 j34j d0fefa2d40".roll() {
        Ok(n) => println!("{}", n.to_string()),
        Err(e) => println!("{}", e),
    };
    match "!roll 1d2ferfag0fefa2d40".roll() {
        Ok(n) => println!("{}", n.to_string()),
        Err(e) => println!("{}", e),
    };
    match "!roll 1d 480598309 fwaefj efjij 4d5t969 fejfeijijfj4d438".roll() {
        Ok(n) => println!("{}", n.to_string()),
        Err(e) => println!("{}", e),
    };
    match "!roll d20".roll() {
        Ok(n) => println!("{}", n.to_string()),
        Err(e) => println!("{}", e),
    };
}

#[test]
fn strip_command_keeps_text_after_first_space() {
    assert_eq!(strip_command("!roll 1d20 2d6"), "1d20 2d6");
    assert_eq!("!ami happy?".strip_command(), "happy?");
    assert_eq!(strip_command("!roll"), "");
    assert_eq!(strip_command("!roll "), "");
}

#[test]
fn sanitize_filters_and_squeezes() {
    assert_eq!(sanitize("!roll 2D6   1d8 x"), "2d6 1d8");
    assert_eq!(sanitize("!roll  abc 1dxyz  "), "1d");
    assert_eq!(sanitize("!roll "), "");
    assert_eq!(clean_operand("  4 d  6 "), "4 d 6");
}

#[test]
fn sanitize_is_idempotent() {
    for s in ["  4 d  6 ", "1d2ferfag23498d892838  j j j j34d 3", "D20 dD 7", "", "   "] {
        let once = clean_operand(s);
        assert_eq!(clean_operand(&once), once);
    }
}

#[test]
fn parse_count_values() {
    assert_eq!(parse_count(&chars("20")), Ok(20));
    assert_eq!(parse_count(&chars("0007")), Ok(7));
    assert_eq!(parse_count(&chars("65535")), Ok(65535));
    assert_eq!(parse_count(&chars("65536")), Err(NumError::TooLarge));
    assert_eq!(parse_count(&chars("")), Err(NumError::Empty));
    assert_eq!(parse_count(&chars("0")), Err(NumError::Zero));
}

#[test]
fn scan_reads_groups() {
    let t = |m: u16, f: u16| DiceToken { multiplier: m, faces: f };
    let r = scan("1d20");
    assert_eq!(r.tokens, vec![t(1, 20)]);
    assert!(r.error.is_none());
    assert_eq!(scan("d20").tokens, vec![t(1, 20)]);
    assert_eq!(scan("2d6d8").tokens, vec![t(2, 6), t(1, 8)]);
    assert_eq!(scan("1d 20").tokens, vec![t(1, 20)]);
    assert_eq!(scan("2d6 1d8").tokens, vec![t(2, 6), t(1, 8)]);
    assert_eq!(scan("1 2d6").tokens, vec![t(12, 6)]);
}

#[test]
fn scan_errors() {
    match scan("1d").error {
        Some(ParseError::BadFaces { multiplier, faces, reason }) => {
            assert_eq!(multiplier, "1");
            assert_eq!(faces, "");
            assert_eq!(reason, NumError::Empty);
        }
        _ => panic!("expected bad faces"),
    }
    let r = scan("2d6 0d4");
    assert_eq!(r.tokens, vec![DiceToken { multiplier: 2, faces: 6 }]);
    match r.error {
        Some(ParseError::BadMultiplier { multiplier, faces, reason }) => {
            assert_eq!(multiplier, "0");
            assert_eq!(faces, "4");
            assert_eq!(reason, NumError::Zero);
        }
        _ => panic!("expected bad multiplier"),
    }
    match scan("99999d0").error {
        Some(ParseError::BadBoth { multiplier, faces, multiplier_reason, faces_reason }) => {
            assert_eq!(multiplier, "99999");
            assert_eq!(faces, "0");
            assert_eq!(multiplier_reason, NumError::TooLarge);
            assert_eq!(faces_reason, NumError::Zero);
        }
        _ => panic!("expected bad both"),
    }
    match scan("1d70000").error {
        Some(ParseError::BadFaces { reason, .. }) => assert_eq!(reason, NumError::TooLarge),
        _ => panic!("expected bad faces"),
    }
    assert!(matches!(scan("").error, Some(ParseError::EmptyInput)));
    assert!(matches!(scan(" ").error, Some(ParseError::EmptyInput)));
    // A trailing multiplier without faces is flushed and fails.
    assert!(matches!(scan("2d6 5").error, Some(ParseError::BadFaces { .. })));
}

#[test]
fn record_and_render() {
    let mut r = RollResult::new();
    r.record(DiceToken { multiplier: 2, faces: 6 }, &vec![3, 4]);
    assert_eq!(r.to_string(), "\n 2 x d6 - 7\n  3\n  4");
    r.record(DiceToken { multiplier: 1, faces: 8 }, &vec![5]);
    assert_eq!(r.to_string(), "Result: 12.\n 2 x d6 - 7\n  3\n  4\n 1 x d8 - 5");
    r.record(DiceToken { multiplier: 1, faces: 6 }, &vec![6]);
    assert_eq!(r.total(), 18);
    assert_eq!(r.rolls().len(), 2);
    assert_eq!(r.rolls()[0].multiplier(), 3);
    assert_eq!(r.rolls()[0].total(), 13);
    assert_eq!(r.rolls()[0].results(), &vec![3, 4, 6]);
    assert_eq!(
        r.to_string(),
        "Result: 18.\n 3 x d6 - 13\n  3\n  4\n  6\n 1 x d8 - 5"
    );
}

#[test]
fn render_single_and_many() {
    let mut one = RollResult::new();
    one.record(DiceToken { multiplier: 1, faces: 20 }, &vec![17]);
    assert_eq!(one.to_string(), "\n 1 x d20 - 17");

    let mut ten = RollResult::new();
    ten.record(DiceToken { multiplier: 10, faces: 4 }, &vec![1; 10]);
    assert_eq!(ten.to_string(), format!("\n 10 x d4 - 10{}", LOTS));

    let mut nine = RollResult::new();
    nine.record(DiceToken { multiplier: 9, faces: 4 }, &vec![2; 9]);
    assert_eq!(nine.to_string(), format!("\n 9 x d4 - 18{}", "\n  2".repeat(9)));

    assert_eq!(RollResult::new().to_string(), "Result: 0.");
}

#[test]
fn draws_lie_within_faces() {
    let mut rng = rand::thread_rng();
    for faces in [1u16, 2, 6, 20, 65535] {
        let draws = roll_token(&mut rng, DiceToken { multiplier: 500, faces });
        assert_eq!(draws.len(), 500);
        assert!(draws.iter().all(|&d| 1 <= d && d <= faces as u128));
    }
    let d6 = roll_token(&mut rng, DiceToken { multiplier: 1000, faces: 6 });
    assert!(d6.iter().any(|&d| d != 6));
    assert!(d6.iter().any(|&d| d != 1));
}

#[test]
fn single_group_roll() {
    for (m, f) in [(1u128, 20u16), (3, 6), (65535, 2)] {
        let raw = format!("!roll {}d{}", m, f);
        let r = raw.as_str().roll().unwrap_or_else(|e| panic!("{}", e));
        assert_eq!(r.rolls().len(), 1);
        let g = &r.rolls()[0];
        assert_eq!(g.multiplier(), m);
        assert_eq!(g.faces(), f);
        assert!(m <= g.total() && g.total() <= m * f as u128);
        assert_eq!(r.total(), g.total());
    }
}

#[test]
fn same_faces_pool() {
    let a = "!roll 1d6 1d6".roll().unwrap();
    let b = "!roll 2d6".roll().unwrap();
    for r in [&a, &b] {
        assert_eq!(r.rolls().len(), 1);
        assert_eq!(r.rolls()[0].multiplier(), 2);
        assert_eq!(r.rolls()[0].faces(), 6);
        assert!(2 <= r.total() && r.total() <= 12);
    }
}

#[test]
fn bad_faces_names_input() {
    let e = evaluate("!roll 1dabc").unwrap_err();
    assert!(e.contains("abc"));
    assert!(matches!(scan(&sanitize("!roll 1dabc")).error, Some(ParseError::BadFaces { .. })));
}

#[test]
fn scenario_one_d20() {
    let r = "!roll 1d20".roll().unwrap();
    assert_eq!(r.rolls().len(), 1);
    assert_eq!(r.rolls()[0].multiplier(), 1);
    assert_eq!(r.rolls()[0].faces(), 20);
    assert!(1 <= r.total() && r.total() <= 20);
    let s = evaluate("!roll 1d20").unwrap();
    assert!(s.starts_with("\n 1 x d20 - "));
    assert!(!s.contains("Result:"));
}

#[test]
fn scenario_two_groups() {
    let r = "!roll 2d6 1d8".roll().unwrap();
    assert_eq!(r.rolls().len(), 2);
    assert_eq!(r.rolls()[0].faces(), 6);
    assert_eq!(r.rolls()[1].faces(), 8);
    let s = r.to_string();
    assert!(s.starts_with(&format!("Result: {}.", r.total())));
}

#[test]
fn scenario_implied_multiplier() {
    let r = "!roll d20".roll().unwrap();
    assert_eq!(r.rolls().len(), 1);
    assert_eq!(r.rolls()[0].multiplier(), 1);
    assert_eq!(r.rolls()[0].faces(), 20);
}

#[test]
fn scenario_bad_faces_text() {
    let e = evaluate("!roll 1dxyz").unwrap_err();
    assert!(e.contains("xyz"));
    assert!(e.contains("cannot parse integer from empty string"));
}

#[test]
fn scenario_many_dice() {
    let r = "!roll 12d6".roll().unwrap();
    assert_eq!(r.rolls()[0].results().len(), 12);
    let s = r.to_string();
    assert!(s.ends_with(LOTS));
    assert_eq!(s.matches('\n').count(), 2);
}

#[test]
fn scenario_no_operand() {
    let e = evaluate("!roll ").unwrap_err();
    assert_eq!(e, "```\nThere are no dice to roll in ''.```");
    assert!(evaluate("!roll").is_err());
}

#[test]
fn failure_keeps_earlier_dice() {
    let e = evaluate("!roll 2d6 1d").unwrap_err();
    assert!(e.starts_with("```\nThe multiplier '1' looks right to me, but d'' cannot be parsed"));
    assert!(e.contains(" VALID DICE: \n 2 x d6 - "));
    assert!(e.contains("in '2d6 1d'"));
    let e = evaluate("!roll 0d6").unwrap_err();
    assert!(e.contains("'0' cannot be parsed as a multiplier"));
    assert!(e.contains("number would be zero for non-zero type"));
    let e = evaluate("!roll 99999d99999").unwrap_err();
    assert!(e.contains("Neither '99999' nor '99999'"));
    assert!(e.contains("number too large to fit in target type"));
}

#[test]
fn num_error_messages() {
    assert_eq!(NumError::Empty.message(), "cannot parse integer from empty string");
    assert_eq!(NumError::TooLarge.message(), "number too large to fit in target type");
    assert_eq!(NumError::Zero.message(), "number would be zero for non-zero type");
}

#[test]
fn affirmation_drops_question_marks() {
    assert_eq!(
        dicebot::affirmation("Ana", "!ami a wizard?"),
        "`Yes, Ana, you are a wizard.`"
    );
    assert_eq!(dicebot::affirmation("Bo", "!ami"), "`Yes, Bo, you are .`");
}
