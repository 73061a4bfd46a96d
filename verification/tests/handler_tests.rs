use instaling_bot::config_manager::{load_config, Config};
use instaling_bot::dictionary::{read_from_dict, write_to_dict};
use instaling_bot::handler::{
    answer_form, answer_step, config_login_form, credentials_present, delay_with, examine_word,
    extract_student_id, finish_response, first_alternative, handler_init, judge_answer, login_form,
    main_page_url, plan_delay, read_timing, session_form, student_headers_are_readable,
    try_examine_word, try_finish_response, try_handler_init, try_judge_answer, try_read_timing,
    word_request_form, AnswerStep, DelayPlan, Question, ReplyError, Response,
    Timing, WordStep,
};
use instaling_bot::interface::{
    forget_password_unless_remembered, progress_after_correct, progress_count_of, save_language,
    save_login, selected_language,
};

fn pairs(v: &[(&str, &str)]) -> Vec<(String, String)> {
    v.iter().map(|(a, b)| (a.to_string(), b.to_string())).collect()
}

fn question(known: Option<&str>) -> Question {
    Question {
        example_use: "the cat sleeps".to_string(),
        word_id: "17".to_string(),
        translations: "kot".to_string(),
        known_answer: known.map(|s| s.to_string()),
    }
}

#[test]
fn new_response_is_blank() {
    let r = Response::new();
    assert!(!r.succ && !r.dialog_show && !r.ignore);
    assert!(r.quesion.is_empty() && r.approx.is_empty() && r.answear.is_empty());
    assert!(r.pol_answer.is_empty() && r.dialog_title.is_empty() && r.dialog_message.is_empty());
    assert!(Response::ignored().ignore);
}

#[test]
fn examine_rejects_non_json() {
    assert!(matches!(try_examine_word("<html>banned</html>", ""), Err(ReplyError::NotJson)));
}

#[test]
fn examine_finished_session() {
    let body = r#"{"summary": {"days": 3}}"#;
    assert!(matches!(try_examine_word(body, ""), Ok(WordStep::Finished)));
}

#[test]
fn examine_skips_word_without_example() {
    let body = r#"{"summary": null, "id": "5"}"#;
    assert!(matches!(try_examine_word(body, ""), Ok(WordStep::Skip)));
    let body = r#"{"summary": null, "usage_example": null}"#;
    assert!(matches!(try_examine_word(body, ""), Ok(WordStep::Skip)));
}

#[test]
fn examine_word_unknown_to_dictionary() {
    let body = r#"{"summary": null, "usage_example": "the cat sleeps", "id": 17, "translations": "kot"}"#;
    match try_examine_word(body, "other $ x\n") {
        Ok(WordStep::Answer(q)) => {
            assert_eq!(q.example_use, "the cat sleeps");
            assert_eq!(q.word_id, "17");
            assert_eq!(q.translations, "kot");
            assert_eq!(q.known_answer, None);
        }
        _ => panic!("expected a word"),
    }
}

#[test]
fn examine_word_known_to_dictionary() {
    let body = r#"{"usage_example": "the cat sleeps", "id": "17", "translations": "kot"}"#;
    match try_examine_word(body, "the cat sleeps $ cat\n") {
        Ok(WordStep::Answer(q)) => assert_eq!(q.known_answer, Some("cat".to_string())),
        _ => panic!("expected a word"),
    }
}

#[test]
fn finish_message() {
    let report = r#"{"work_week_days": 4, "prev_mark": "3+", "current_mark": 5}"#;
    let r = try_finish_response(report).unwrap();
    assert!(r.dialog_show);
    assert_eq!(r.dialog_title, "Done!");
    assert_eq!(r.dialog_message, "Work days done: 4\nPrevious mark: 3+\nCurrent mark: 5");
    assert!(try_finish_response("not json").is_err());
}

#[test]
fn first_alternative_cuts_at_comma() {
    assert_eq!(first_alternative("cat, tomcat"), "cat");
    assert_eq!(first_alternative("cat"), "cat");
    assert_eq!(first_alternative(",x"), "");
}

#[test]
fn judge_correct_translated_answer_is_recorded() {
    let reply = r#"{"grade": 1, "answershow": "cat"}"#;
    let j = try_judge_answer(reply, &question(None), "cat").unwrap();
    assert!(j.response.succ);
    assert_eq!(j.response.quesion, "the cat sleeps");
    assert_eq!(j.response.answear, "cat");
    assert_eq!(j.response.approx, "cat");
    assert_eq!(j.response.pol_answer, "kot");
    assert_eq!(j.dictionary_entry, Some("the cat sleeps $ cat".to_string()));
}

#[test]
fn judge_correct_known_answer_not_recorded() {
    let reply = r#"{"grade": "1", "answershow": "cat"}"#;
    let j = try_judge_answer(reply, &question(Some("cat")), "cat").unwrap();
    assert!(j.response.succ);
    assert_eq!(j.dictionary_entry, None);
}

#[test]
fn judge_wrong_answer_records_server_answer() {
    let reply = r#"{"grade": 0, "answershow": "cat"}"#;
    let j = try_judge_answer(reply, &question(None), "dog").unwrap();
    assert!(!j.response.succ);
    assert_eq!(j.response.answear, "cat");
    assert_eq!(j.response.approx, "dog");
    assert_eq!(j.dictionary_entry, Some("the cat sleeps $ cat".to_string()));
    let reply = r#"{"grade": "3", "answershow": "cat"}"#;
    let j = try_judge_answer(reply, &question(Some("dog")), "dog").unwrap();
    assert!(!j.response.succ);
    assert_eq!(j.dictionary_entry, Some("the cat sleeps $ cat".to_string()));
}

#[test]
fn judge_error_reply() {
    let j = try_judge_answer(r#"["BRUH"]"#, &question(None), "cat").unwrap();
    assert!(j.response.dialog_show);
    assert_eq!(j.response.dialog_title, "Error");
    assert_eq!(j.response.dialog_message, "Something went wrong");
    assert_eq!(j.dictionary_entry, None);
    assert!(matches!(try_judge_answer("BRUH: failed", &question(None), "cat"), Err(ReplyError::NotJson)));
}

#[test]
fn wrong_answer_is_learned() {
    let mut dict = String::from("other $ x\n");
    let reply = r#"{"grade": 0, "answershow": "cat"}"#;
    let j = try_judge_answer(reply, &question(None), "dog").unwrap();
    write_to_dict(&mut dict, &j.dictionary_entry.unwrap());
    assert_eq!(read_from_dict(&dict, "the cat sleeps"), "cat");
    let body = r#"{"summary": null, "usage_example": "the cat sleeps", "id": "17", "translations": "kot"}"#;
    match try_examine_word(body, &dict) {
        Ok(WordStep::Answer(q)) => assert_eq!(q.known_answer, Some("cat".to_string())),
        _ => panic!("expected a word"),
    }
}

#[test]
fn timing_from_config() {
    let text = "[timing]\nsleep_per_letter = 100\nsleep_before_sending = 500\nsleep_before_sending_max = 900\n";
    let config = load_config(text.to_string());
    let t = read_timing(&config);
    assert_eq!(t, Timing { per_letter: 100, min_wait: 500, max_wait: 900 });
    let bad = load_config("[timing]\nsleep_per_letter = x\nsleep_before_sending = 1\nsleep_before_sending_max = 2\n".to_string());
    assert_eq!(try_read_timing(&bad), None);
    let missing = load_config("[timing]\nsleep_per_letter = 1\n".to_string());
    assert_eq!(try_read_timing(&missing), None);
    assert_eq!(try_read_timing(&config), Some(t));
}

#[test]
fn delays() {
    let t = Timing { per_letter: 100, min_wait: 500, max_wait: 900 };
    assert_eq!(delay_with(&t, "kot", 7), Some(307));
    assert_eq!(delay_with(&t, "żó", 0), Some(400));
    let huge = Timing { per_letter: u64::MAX / 2, min_wait: 0, max_wait: 10 };
    assert_eq!(delay_with(&huge, "ab", 0), Some(u64::MAX - 1));
    assert_eq!(delay_with(&huge, "ab", 2), None);
    assert_eq!(delay_with(&huge, "abc", 0), None);
    for _ in 0..50 {
        match plan_delay(&t, "cat") {
            DelayPlan::Wait(d) => assert!(d >= 800 && d < 1200),
            other => panic!("unexpected plan {:?}", other),
        }
    }
}

#[test]
fn delay_plans_for_bad_bounds() {
    let above = Timing { per_letter: 1, min_wait: 10, max_wait: 5 };
    assert_eq!(plan_delay(&above, "cat"), DelayPlan::MinAboveMax);
    let empty = Timing { per_letter: 1, min_wait: 5, max_wait: 5 };
    assert_eq!(plan_delay(&empty, "cat"), DelayPlan::EmptyRange);
    let huge = Timing { per_letter: u64::MAX, min_wait: 0, max_wait: 5 };
    assert_eq!(plan_delay(&huge, "cat"), DelayPlan::Overflow);
}

#[test]
fn credentials_must_both_be_given() {
    assert!(credentials_present("jan", "pw"));
    assert!(!credentials_present("", "pw"));
    assert!(!credentials_present("jan", ""));
    assert!(!credentials_present("", ""));
}

#[test]
fn forms() {
    assert_eq!(
        login_form("jan", "pw"),
        pairs(&[("from", ""), ("action", "login"), ("log_password", "pw"), ("log_email", "jan")])
    );
    assert_eq!(
        session_form("42"),
        pairs(&[("child_id", "42"), ("repeat", ""), ("start", ""), ("end", "")])
    );
    assert_eq!(word_request_form("42", "1700000000000"), pairs(&[("child_id", "42"), ("date", "1700000000000")]));
    assert_eq!(
        answer_form("42", "17", "cat"),
        pairs(&[
            ("child_id", "42"),
            ("word_id", "17"),
            ("version", "C65E24B29F60B1221EC23D979C9707DE"),
            ("answer", "cat")
        ])
    );
    assert_eq!(main_page_url("42"), "https://instaling.pl:443/student/pages/mainPage.php?student_id=42");
}

#[test]
fn student_id_from_headers() {
    let values = vec![Some("text/html".to_string()), Some("a?student_id=1234&x=y".to_string())];
    assert!(student_headers_are_readable(&values));
    assert_eq!(extract_student_id(&values), Some("1234&x".to_string()));
    let later = vec![Some("student_id=9".to_string()), None];
    assert!(student_headers_are_readable(&later));
    assert_eq!(extract_student_id(&later), Some("9".to_string()));
    let none = vec![Some("text/html".to_string())];
    assert_eq!(extract_student_id(&none), None);
}

#[test]
fn unreadable_student_headers() {
    assert!(!student_headers_are_readable(&vec![None, Some("student_id=1".to_string())]));
    assert!(!student_headers_are_readable(&vec![Some("student_id".to_string())]));
}

#[test]
fn session_setup() {
    let config = load_config(
        "[translator]\nto = en\nfrom = pl\n[account]\nlogin = jan\npasswd = pw\n".to_string(),
    );
    let h = handler_init(&config, &vec![Some("student_id=77".to_string())]);
    assert_eq!(h.translator_struct.to, "en");
    assert_eq!(h.translator_struct.from, "pl");
    assert_eq!(h.student_id, "77");
    assert_eq!(h.map, pairs(&[("child_id", "77"), ("repeat", ""), ("start", ""), ("end", "")]));
    let h = handler_init(&config, &vec![]);
    assert_eq!(h.student_id, "bruh");
    assert_eq!(
        config_login_form(&config),
        pairs(&[("from", ""), ("action", "login"), ("log_password", "pw"), ("log_email", "jan")])
    );
    let empty = load_config(String::new());
    assert!(try_handler_init(&empty, &vec![]).is_none());
    let no_login = load_config("[translator]\nto = en\nfrom = pl\n".to_string());
    assert!(try_handler_init(&no_login, &vec![]).is_none());
    assert!(try_handler_init(&config, &vec![None]).is_none());
    assert!(try_handler_init(&config, &vec![]).is_some());
}

#[test]
fn interface_settings() {
    assert_eq!(selected_language(true, true), "en");
    assert_eq!(selected_language(false, true), "de");
    assert_eq!(selected_language(false, false), "None");
    let mut config = load_config(String::new());
    save_language(&mut config, false, true);
    assert_eq!(config.get("translator", "to"), Some("de".to_string()));
    save_login(&mut config, "jan", "pw", false).unwrap();
    assert_eq!(config.get("account", "login"), Some("jan".to_string()));
    assert_eq!(config.get("account", "remember"), Some("false".to_string()));
    assert_eq!(config.get("account", "passwd"), Some("pw".to_string()));
    assert!(forget_password_unless_remembered(&mut config).is_some());
    assert_eq!(config.get("account", "passwd"), Some(String::new()));
    save_login(&mut config, "jan", "pw", true).unwrap();
    assert!(forget_password_unless_remembered(&mut config).is_none());
    assert_eq!(config.get("account", "passwd"), Some("pw".to_string()));
}

#[test]
fn progress_label() {
    assert_eq!(progress_count_of("3/20"), Some(3));
    assert_eq!(progress_count_of("x/20"), None);
    assert_eq!(progress_count_of("12"), Some(12));
    assert_eq!(progress_after_correct("3/20"), "4/20");
    assert_eq!(progress_after_correct("0/20"), "1/20");
    assert_eq!(progress_after_correct("-5/20"), "-4/20");
}

#[test]
fn answer_comes_from_dictionary_or_translator() {
    match answer_step(&question(Some("cat, kitty"))) {
        AnswerStep::Send(a) => assert_eq!(a, "cat, kitty"),
        AnswerStep::Translate(_) => panic!("the dictionary's answer must be used"),
    }
    match answer_step(&question(None)) {
        AnswerStep::Translate(t) => assert_eq!(t, "kot"),
        AnswerStep::Send(_) => panic!("the translator must be asked"),
    }
}

#[test]
fn login_reads_back_after_saving_and_reloading() {
    let mut config = load_config("[account]\nlogin = old\n".to_string());
    let text = save_login(&mut config, "ola", "pw", true).unwrap();
    let reloaded = load_config(text);
    for c in [&config, &reloaded] {
        assert_eq!(c.get("account", "login"), Some("ola".to_string()));
        assert_eq!(c.get("account", "remember"), Some("true".to_string()));
        assert_eq!(c.get("account", "passwd"), Some("pw".to_string()));
    }
}

#[test]
fn login_with_unreadable_text_is_refused() {
    let mut config = load_config("[account]\nlogin = old\n".to_string());
    let r = save_login(&mut config, "a\n[b", "pw", true);
    assert!(r.is_err());
    assert_eq!(config.get("account", "login"), Some("old".to_string()));
}

#[test]
fn login_with_inner_carriage_return_is_kept() {
    let mut config = Config::new();
    let text = save_login(&mut config, "Jan\rK", "p w", false).unwrap();
    let reloaded = load_config(text);
    assert_eq!(reloaded.get("account", "login"), Some("Jan\rK".to_string()));
    assert_eq!(reloaded.get("account", "passwd"), Some("p w".to_string()));
}

#[test]
fn strict_readers_agree_with_checked_ones() {
    let body = r#"{"summary": null, "usage_example": "the cat sleeps", "id": "5", "translations": "kot"}"#;
    match (examine_word(body, ""), try_examine_word(body, "").unwrap()) {
        (WordStep::Answer(a), WordStep::Answer(b)) => {
            assert_eq!(a.example_use, "the cat sleeps");
            assert_eq!(a.word_id, b.word_id);
            assert_eq!(a.translations, b.translations);
            assert_eq!(a.known_answer, None);
        }
        _ => panic!("both readers must ask for an answer"),
    }
    let report = r#"{"work_week_days": 3, "prev_mark": 4, "current_mark": 5}"#;
    assert_eq!(finish_response(report).dialog_message, try_finish_response(report).unwrap().dialog_message);
    let reply = r#"{"grade": 1, "answershow": "cat"}"#;
    let j = judge_answer(reply, &question(None), "cat");
    assert!(j.response.succ);
    assert_eq!(j.dictionary_entry, try_judge_answer(reply, &question(None), "cat").unwrap().dictionary_entry);
}

#[test]
fn login_with_comment_sign_is_cut_and_the_rest_is_stored() {
    let mut config = Config::new();
    let text = save_login(&mut config, " jan ", "p#ss", true).unwrap();
    let reloaded = load_config(text);
    for c in [&config, &reloaded] {
        assert_eq!(c.get("account", "login"), Some("jan".to_string()));
        assert_eq!(c.get("account", "remember"), Some("true".to_string()));
        assert_eq!(c.get("account", "passwd"), Some("p".to_string()));
    }
}
