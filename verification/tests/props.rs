use jargon_args::Error;
use jargon_args::Jargon;
use jargon_args::Key;

#[test]
fn contains_idempotent_false_after_removal() {
    let mut j = Jargon::from_vec(vec![
        "prog".to_string(),
        "-a".to_string(),
        "-b".to_string(),
        "beans".to_string(),
    ]);

    assert!(j.contains(&Key::parse("-a")));
    assert_eq!(
        j,
        Jargon::from_vec(vec![
            "prog".to_string(),
            "-b".to_string(),
            "beans".to_string(),
        ])
    );
    assert!(!j.contains(&Key::parse("-a")));
}

#[test]
fn contains_nomut_no_change_either_way() {
    let j = Jargon::from_vec(vec![
        "prog".to_string(),
        "-a".to_string(),
        "beans".to_string(),
    ]);
    let same = Jargon::from_vec(vec![
        "prog".to_string(),
        "-a".to_string(),
        "beans".to_string(),
    ]);

    assert!(j.contains_nomut(&Key::parse("-a")));
    assert_eq!(j, same);
    assert!(!j.contains_nomut(&Key::parse("-z")));
    assert_eq!(j, same);
}

#[test]
fn option_arg_removes_key_and_value() {
    let mut j = Jargon::from_vec(vec![
        "prog".to_string(),
        "-a".to_string(),
        "hello".to_string(),
        "world".to_string(),
    ]);

    assert_eq!(j.option_arg(&Key::parse("-a")), Some("hello".to_string()));
    assert_eq!(
        j,
        Jargon::from_vec(vec!["prog".to_string(), "world".to_string()])
    );
}

#[test]
fn option_arg_flag_like_value_leaves_buffer() {
    let mut j = Jargon::from_vec(vec![
        "prog".to_string(),
        "-a".to_string(),
        "--hello".to_string(),
        "world".to_string(),
    ]);

    assert_eq!(j.option_arg(&Key::parse("-a")), None);
    assert_eq!(
        j,
        Jargon::from_vec(vec![
            "prog".to_string(),
            "-a".to_string(),
            "--hello".to_string(),
            "world".to_string(),
        ])
    );
}

#[test]
fn option_arg_key_last_leaves_buffer() {
    let mut j = Jargon::from_vec(vec!["prog".to_string(), "-a".to_string()]);

    assert_eq!(j.option_arg(&Key::parse("-a")), None);
    assert_eq!(
        j,
        Jargon::from_vec(vec!["prog".to_string(), "-a".to_string()])
    );
}

#[test]
fn option_arg_dual_matches_long_form() {
    let mut j = Jargon::from_vec(vec![
        "prog".to_string(),
        "--all".to_string(),
        "hello".to_string(),
    ]);

    assert_eq!(
        j.option_arg(&Key::dual("-a", "--all")),
        Some("hello".to_string())
    );
}

#[test]
fn option_arg_sub_key_takes_value() {
    let mut j = Jargon::from_vec(vec![
        "prog".to_string(),
        "mode".to_string(),
        "fast".to_string(),
    ]);

    assert_eq!(j.option_arg(&Key::parse("mode")), Some("fast".to_string()));
    assert_eq!(j, Jargon::from_vec(vec!["prog".to_string()]));
}

#[test]
fn result_arg_present_is_ok() {
    let mut j = Jargon::from_vec(vec![
        "prog".to_string(),
        "-a".to_string(),
        "hello".to_string(),
    ]);

    assert_eq!(j.result_arg(Key::parse("-a")), Ok("hello".to_string()));
}

#[test]
fn result_arg_absent_carries_key() {
    let mut j = Jargon::from_vec(vec!["prog".to_string(), "beans".to_string()]);

    assert_eq!(
        j.result_arg(Key::parse("-a")),
        Err(Error::MissingArg(Key::parse("-a")))
    );
    assert_eq!(
        j,
        Jargon::from_vec(vec!["prog".to_string(), "beans".to_string()])
    );
}

#[test]
fn result_arg_missing_dual_message() {
    let mut j = Jargon::from_vec(vec!["prog".to_string()]);

    match j.result_arg(Key::dual("-a", "--all")) {
        Err(e) => assert_eq!(e.display(), "Missing argument: '-a, --all'".to_string()),
        Ok(_) => panic!("expected a missing argument"),
    }
}

#[test]
fn subcommand_dispatch_forwards_tail() {
    let mut j = Jargon::from_vec(vec![
        "prog".to_string(),
        "sub".to_string(),
        "x".to_string(),
        "y".to_string(),
    ]);

    let mut seen: Option<Vec<String>> = None;
    j.on_subcommand(&Key::parse("sub"), |v: Vec<String>| seen = Some(v));
    assert_eq!(seen, Some(vec!["x".to_string(), "y".to_string()]));
    assert_eq!(j, Jargon::from_vec(vec!["prog".to_string()]));
}

#[test]
fn subcommand_dispatch_no_match_never_invokes() {
    let mut j = Jargon::from_vec(vec![
        "prog".to_string(),
        "-a".to_string(),
        "beans".to_string(),
    ]);

    let mut invoked = false;
    j.on_subcommand(&Key::parse("sub"), |_v: Vec<String>| invoked = true);
    assert!(!invoked);
    assert_eq!(
        j,
        Jargon::from_vec(vec![
            "prog".to_string(),
            "-a".to_string(),
            "beans".to_string(),
        ])
    );
}

#[test]
fn subcommand_returns_tail_and_keeps_head() {
    let mut j = Jargon::from_vec(vec![
        "prog".to_string(),
        "sub".to_string(),
        "x".to_string(),
        "y".to_string(),
    ]);

    assert_eq!(
        j.subcommand(&Key::parse("sub")),
        Some(vec!["x".to_string(), "y".to_string()])
    );
    assert_eq!(j, Jargon::from_vec(vec!["prog".to_string()]));
}

#[test]
fn subcommand_no_match_is_none() {
    let mut j = Jargon::from_vec(vec!["prog".to_string(), "-a".to_string()]);

    assert_eq!(j.subcommand(&Key::parse("sub")), None);
    assert_eq!(
        j,
        Jargon::from_vec(vec!["prog".to_string(), "-a".to_string()])
    );
}

#[test]
fn subcommand_ignores_flag_tokens() {
    let mut j = Jargon::from_vec(vec![
        "prog".to_string(),
        "-a".to_string(),
        "sub".to_string(),
        "x".to_string(),
    ]);

    assert_eq!(j.subcommand(&Key::parse("sub")), Some(vec!["x".to_string()]));
    assert_eq!(
        j,
        Jargon::from_vec(vec!["prog".to_string(), "-a".to_string()])
    );
}

#[test]
fn subcommand_nomut_keeps_buffer() {
    let j = Jargon::from_vec(vec![
        "prog".to_string(),
        "sub".to_string(),
        "x".to_string(),
    ]);

    assert_eq!(j.subcommand_nomut(&Key::parse("sub")), Some(vec!["x".to_string()]));
    assert_eq!(j.subcommand_nomut(&Key::parse("other")), None);
    assert_eq!(
        j,
        Jargon::from_vec(vec![
            "prog".to_string(),
            "sub".to_string(),
            "x".to_string(),
        ])
    );
}

#[test]
fn opt_on_subcommand_returns_handler_value() {
    let mut j = Jargon::from_vec(vec![
        "prog".to_string(),
        "sub".to_string(),
        "x".to_string(),
    ]);

    let r = j.opt_on_subcommand(&Key::parse("sub"), |v: Vec<String>| Some(v.len()));
    assert_eq!(r, Some(1));

    let none = j.opt_on_subcommand(&Key::parse("sub"), |v: Vec<String>| Some(v.len()));
    assert_eq!(none, None);
}

#[test]
fn res_on_subcommand_absent_carries_key() {
    let mut j = Jargon::from_vec(vec!["prog".to_string()]);

    let r: Result<usize, Error> =
        j.res_on_subcommand(Key::parse("sub"), |v: Vec<String>| Ok(v.len()));
    assert_eq!(r, Err(Error::MissingArg(Key::parse("sub"))));
}

#[test]
fn res_on_subcommand_present_runs_handler() {
    let mut j = Jargon::from_vec(vec![
        "prog".to_string(),
        "sub".to_string(),
        "x".to_string(),
        "y".to_string(),
    ]);

    let r: Result<usize, Error> =
        j.res_on_subcommand(Key::parse("sub"), |v: Vec<String>| Ok(v.len()));
    assert_eq!(r, Ok(2));
}

#[test]
fn finish_drops_reserved_element() {
    let j = Jargon::from_vec(vec!["prog".to_string(), "x".to_string()]);
    assert_eq!(j.finish(), vec!["x".to_string()]);
}

#[test]
fn display_round_trip_single_forms() {
    for s in ["-a", "--all", "beans", "+x", "--b"] {
        assert_eq!(Key::parse(s).display(), s.to_string());
    }
}

#[test]
fn try_parse_rejects_empty_token() {
    assert_eq!(Key::try_parse(""), None);
    assert_eq!(
        Key::try_parse("-a"),
        Some(Key::Short {
            char: '-',
            txt: 'a'
        })
    );
}

#[test]
fn parse_strips_whole_lead_run() {
    assert_eq!(
        Key::parse("---all"),
        Key::Long {
            char: '-',
            txt: "all".to_string()
        }
    );
}

#[test]
fn parse_single_lead_is_empty_long() {
    assert_eq!(
        Key::parse("-"),
        Key::Long {
            char: '-',
            txt: String::new()
        }
    );
}

#[test]
fn parse_digit_lead_is_flag() {
    assert_eq!(
        Key::parse("1x"),
        Key::Short {
            char: '1',
            txt: 'x'
        }
    );
    assert!(Key::parse("x1").is_sub());
}

#[test]
fn dual_mixed_leads_takes_long_lead() {
    let a = Key::dual("-a", "+all");
    let b = Key::dual("+all", "-a");
    assert_eq!(
        a,
        Key::Dual {
            char: '+',
            s_txt: 'a',
            l_txt: "all".to_string()
        }
    );
    assert_eq!(a, b);
}

#[test]
fn short_and_long_same_text_differ() {
    let s = Key::Short {
        char: '-',
        txt: 'a',
    };
    let l = Key::Long {
        char: '-',
        txt: "a".to_string(),
    };
    assert_ne!(s, l);
}

#[test]
fn contains_removes_only_first_match() {
    let mut j = Jargon::from_vec(vec![
        "prog".to_string(),
        "-a".to_string(),
        "-a".to_string(),
    ]);

    assert!(j.contains(&Key::parse("-a")));
    assert_eq!(
        j,
        Jargon::from_vec(vec!["prog".to_string(), "-a".to_string()])
    );
    assert!(j.contains(&Key::parse("-a")));
    assert!(!j.contains(&Key::parse("-a")));
}
