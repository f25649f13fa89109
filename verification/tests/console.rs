use openwarrant::console::{
    act_of, acts_of, all_rows, answer_choice, checked_kinds, compose_meaning, correction_word,
    preset_choice, preset_line, render, retain_rows, target_of, toggle_rows, Act, AnswerChoice,
    Board, Pending, Preset, PresetChoice, Question, Stage, SCHEMA,
};

#[test]
fn the_description_is_optional_and_adds_to_the_preset() {
    let p = "The bytes moved with the plan.";
    assert_eq!(
        compose_meaning(Some(p), Some("The SPDX line moved too.")).as_deref(),
        Some("The bytes moved with the plan. The SPDX line moved too.")
    );
    assert_eq!(
        compose_meaning(Some(p), None).as_deref(),
        Some("The bytes moved with the plan.")
    );
    assert_eq!(
        compose_meaning(None, Some("Only my own words.")).as_deref(),
        Some("Only my own words.")
    );
    assert_eq!(compose_meaning(None, None), None);
}

fn act(n: usize, act: &str, target: &str) -> Act {
    Act {
        n,
        act: act.to_owned(),
        target: target.to_owned(),
        line: format!("{target}  {act}  something"),
        command: format!("war sign {target} --ssh-sign"),
    }
}

fn board_of(acts: Vec<Act>) -> Board {
    Board {
        schema: SCHEMA.to_owned(),
        acts,
        questions: vec![],
        stages: vec![],
        presets: vec![],
    }
}

#[test]
fn a_checked_row_is_marked_and_counted() {
    let b = board_of(vec![
        act(1, "correct", "OW-WAR-0005/D-001"),
        act(2, "authorize", "OW-WAR-0070"),
    ]);
    let checked = vec![2usize];
    let screen = render(&b, &checked);
    assert!(screen.contains("1 checked of 2"), "{screen}");
    assert!(screen.contains("[ ]  1"), "{screen}");
    assert!(screen.contains("[x]  2"), "{screen}");
}

#[test]
fn the_screen_offers_no_way_to_sign_without_the_key() {
    let b = board_of(vec![act(1, "resolve", "OW-WAR-0001")]);
    let screen = render(&b, &Vec::new());
    assert!(screen.contains("one ssh dialog each"), "{screen}");
    assert!(!screen.to_lowercase().contains("auto"), "{screen}");
}

#[test]
fn presets_are_listed_by_key() {
    let p = vec![
        Preset {
            key: "1".to_owned(),
            label: "the relicense".to_owned(),
            acts: vec!["correct".to_owned()],
        },
        Preset {
            key: "2".to_owned(),
            label: "a slice of the 1.0 plan".to_owned(),
            acts: vec![],
        },
    ];
    assert_eq!(preset_line(&p), "1=the relicense  2=a slice of the 1.0 plan");
}

#[test]
fn an_empty_board_says_so_and_lists_questions_and_stages() {
    let mut b = board_of(vec![]);
    b.questions.push(Question {
        warrant: "OW-WAR-0009".to_owned(),
        id: "Q-1".to_owned(),
        blocking: true,
        question: "Which?".to_owned(),
        recommended: "This one.".to_owned(),
        command: String::new(),
    });
    b.stages.push(Stage {
        warrant: "OW-WAR-0009".to_owned(),
        stage: "build".to_owned(),
        title: "Build it".to_owned(),
        executor_kind: "agent".to_owned(),
        command: String::new(),
    });
    let screen = render(&b, &Vec::new());
    let expected = "\n  OpenWarrant console\n\n  nothing awaits a signature.\n\
\n  questions an agent asked you (1 open, 1 blocking)\n   ! OW-WAR-0009 Q-1  (a recommendation is offered)\n        Which?\n\
\n  stages an agent can start now (1)\n   · OW-WAR-0009 build [agent] Build it\n\
\n  1-1  check a row      a  all      n  none\n  s     sign the checked rows (one ssh dialog each)\n  q     answer the questions      r  start the stages\n  c     write the commit message      <Enter>  refresh      x  exit\n";
    assert_eq!(screen, expected);
}

#[test]
fn pending_acts_become_numbered_rows() {
    let pending = vec![
        Pending::Correct {
            alias: "OW-WAR-0005".to_owned(),
            deliverable_id: "D-001".to_owned(),
        },
        Pending::Accept { version: "1.0.0".to_owned() },
    ];
    assert_eq!(act_of(&pending[0]), "correct");
    assert_eq!(target_of(&pending[0]), "OW-WAR-0005/D-001");
    let rows = acts_of(&pending, &vec!["  a line  ".to_owned(), "b".to_owned()]);
    assert_eq!(rows[0].n, 1);
    assert_eq!(rows[0].line, "a line");
    assert_eq!(rows[0].command, "war sign OW-WAR-0005/D-001 --ssh-sign");
    assert_eq!(rows[1].n, 2);
    assert_eq!(rows[1].act, "accept");
    assert_eq!(rows[1].target, "1.0.0");
}

#[test]
fn typed_numbers_toggle_existing_rows_only() {
    let acts = vec![act(1, "resolve", "A"), act(2, "resolve", "B"), act(3, "resolve", "C")];
    let checked = toggle_rows(&vec![2], "1, 2 9 x99999999999999999999999", &acts);
    assert_eq!(checked, vec![1]);
    let again = toggle_rows(&checked, "1", &acts);
    assert!(again.is_empty());
    assert_eq!(all_rows(&acts), vec![1, 2, 3]);
    assert_eq!(retain_rows(&vec![3, 7, 1], &acts), vec![3, 1]);
}

#[test]
fn one_reason_is_asked_per_checked_act_kind() {
    let acts = vec![
        act(1, "correct", "w1/D1"),
        act(2, "authorize", "w2"),
        act(3, "correct", "w3/D2"),
        act(4, "accept", "3"),
    ];
    assert_eq!(checked_kinds(&acts, &vec![3, 1, 2]), vec!["authorize", "correct"]);
    assert_eq!(checked_kinds(&acts, &vec![4]), vec!["accept"]);
    assert_eq!(checked_kinds(&acts, &vec![9]), Vec::<String>::new());
}

#[test]
fn a_correction_without_a_preset_kind_is_a_behaviour_change() {
    assert_eq!(correction_word(None), "behaviour-change");
    assert_eq!(correction_word(Some("")), "behaviour-change");
    assert_eq!(correction_word(Some("typo")), "typo");
}

#[test]
fn an_answer_takes_the_recommendation_on_enter() {
    assert_eq!(answer_choice("s", "yes"), AnswerChoice::Skip);
    assert_eq!(answer_choice("", "yes"), AnswerChoice::Text("yes".to_owned()));
    assert_eq!(answer_choice("", ""), AnswerChoice::NoRecommendation);
    assert_eq!(answer_choice("no", "yes"), AnswerChoice::Text("no".to_owned()));
}

#[test]
fn a_reason_key_picks_a_preset_or_asks_again() {
    let keys = vec!["1".to_owned(), "2".to_owned()];
    assert_eq!(preset_choice("-", &keys), PresetChoice::NoPreset);
    assert_eq!(preset_choice("", &keys), PresetChoice::NoPreset);
    assert_eq!(preset_choice("2", &keys), PresetChoice::Pick(1));
    assert_eq!(preset_choice("7", &keys), PresetChoice::AskAgain);
}

#[test]
fn all_rows_lists_each_number_once() {
    let acts = vec![act(2, "resolve", "A"), act(1, "resolve", "B"), act(2, "resolve", "C")];
    assert_eq!(all_rows(&acts), vec![2, 1]);
}
