use qa_board::{
    decode_question, encode_question, extract_pagination, Answer, Error, NewQuestion, Pagination,
    Question, QuestionId, Store,
};

fn question(id: &str, title: &str, content: &str, tags: Option<Vec<&str>>) -> Question {
    Question::new(
        QuestionId(id.to_string()),
        title.to_string(),
        content.to_string(),
        tags.map(|ts| ts.into_iter().map(|t| t.to_string()).collect()),
    )
}

#[test]
fn question_id_parsing() {
    assert_eq!(QuestionId::from_str(""), Err(Error::NotParsable));
    assert_eq!(QuestionId::from_str("1"), Ok(QuestionId("1".to_string())));
    assert_eq!(
        QuestionId::from_str("abc-42"),
        Ok(QuestionId("abc-42".to_string()))
    );
}

#[test]
fn pagination_default_window() {
    let p = extract_pagination(None, None).unwrap();
    assert_eq!(p, Pagination { start: 0, end: None });
    assert_eq!(Pagination::default(), Pagination { start: 0, end: None });
}

#[test]
fn pagination_missing_half() {
    let one = "1".to_string();
    assert_eq!(
        extract_pagination(Some(&one), None),
        Err(Error::MissingParameter)
    );
    assert_eq!(
        extract_pagination(None, Some(&one)),
        Err(Error::MissingParameter)
    );
}

#[test]
fn pagination_not_parsable() {
    let bad = "x1".to_string();
    let neg = "-1".to_string();
    let huge = "99999999999999999999999999999999999999".to_string();
    let empty = String::new();
    let ok = "10".to_string();
    assert_eq!(
        extract_pagination(Some(&bad), Some(&ok)),
        Err(Error::NotParsable)
    );
    assert_eq!(
        extract_pagination(Some(&ok), Some(&neg)),
        Err(Error::NotParsable)
    );
    assert_eq!(
        extract_pagination(Some(&huge), Some(&ok)),
        Err(Error::NotParsable)
    );
    assert_eq!(
        extract_pagination(Some(&empty), Some(&ok)),
        Err(Error::NotParsable)
    );
    assert_eq!(
        extract_pagination(Some(&"1".to_string()), Some(&ok)),
        Ok(Pagination { start: 1, end: Some(10) })
    );
}

#[test]
fn last_write_wins() {
    let mut store = Store::new();
    let id = QuestionId("q1".to_string());
    store
        .add_question(question("q1", "first title", "first body", None))
        .unwrap();
    let updated = store
        .update_question(
            &id,
            NewQuestion {
                title: "second title".to_string(),
                content: "second body".to_string(),
                tags: Some(vec!["t".to_string()]),
            },
        )
        .unwrap();
    let got = store.get_question(&id).unwrap();
    assert_eq!(got, updated);
    assert_eq!(got.title, "second title");
    store.delete_question(&id).unwrap();
    assert_eq!(store.get_question(&id), Err(Error::QuestionNotFound));
    store
        .add_question(question("q1", "third title", "third body", None))
        .unwrap();
    assert_eq!(store.get_question(&id).unwrap().title, "third title");
}

#[test]
fn listing_counts_questions() {
    let mut store = Store::new();
    let everything = Pagination { start: 0, end: None };
    assert_eq!(store.get_questions(&everything).unwrap().len(), 0);
    for i in 0..4 {
        store
            .add_question(question(&format!("q{i}"), "t", "c", None))
            .unwrap();
    }
    assert_eq!(store.get_questions(&everything).unwrap().len(), 4);
    store.delete_question(&QuestionId("q2".to_string())).unwrap();
    assert_eq!(store.get_questions(&everything).unwrap().len(), 3);
}

#[test]
fn listing_window_out_of_range() {
    let mut store = Store::new();
    for i in 0..5 {
        store
            .add_question(question(&format!("q{i}"), "t", "c", None))
            .unwrap();
    }
    let window = Pagination { start: 1, end: Some(10) };
    assert_eq!(store.get_questions(&window), Err(Error::OutOfRange));
    let inverted = Pagination { start: 3, end: Some(2) };
    assert_eq!(store.get_questions(&inverted), Err(Error::OutOfRange));
    let fits = Pagination { start: 1, end: Some(3) };
    let slice = store.get_questions(&fits).unwrap();
    assert_eq!(slice.len(), 2);
    assert_eq!(slice[0].id, QuestionId("q1".to_string()));
    assert_eq!(slice[1].id, QuestionId("q2".to_string()));
}

#[test]
fn listing_empty_windows() {
    let mut store = Store::new();
    for i in 0..5 {
        store
            .add_question(question(&format!("q{i}"), "t", "c", None))
            .unwrap();
    }
    let empty_middle = Pagination { start: 2, end: Some(2) };
    assert_eq!(store.get_questions(&empty_middle).unwrap(), vec![]);
    let empty_at_end = Pagination { start: 5, end: Some(5) };
    assert_eq!(store.get_questions(&empty_at_end).unwrap(), vec![]);
    let past_the_end = Pagination { start: 6, end: Some(6) };
    assert_eq!(store.get_questions(&past_the_end), Err(Error::OutOfRange));
}

#[test]
fn body_into_question() {
    let body = NewQuestion {
        title: "t".to_string(),
        content: "c".to_string(),
        tags: Some(vec!["x".to_string()]),
    };
    let q = body.into_question(QuestionId("q9".to_string()));
    assert_eq!(q, question("q9", "t", "c", Some(vec!["x"])));
}

#[test]
fn duplicate_id_refused() {
    let mut store = Store::new();
    store.add_question(question("q1", "a", "b", None)).unwrap();
    assert_eq!(
        store.add_question(question("q1", "other", "other", None)),
        Err(Error::DuplicateId)
    );
    let everything = Pagination { start: 0, end: None };
    let all = store.get_questions(&everything).unwrap();
    assert_eq!(all.len(), 1);
    assert_eq!(all[0].title, "a");
}

#[test]
fn update_and_delete_missing_question() {
    let mut store = Store::new();
    let id = QuestionId("absent".to_string());
    assert_eq!(
        store.update_question(
            &id,
            NewQuestion { title: "t".to_string(), content: "c".to_string(), tags: None },
        ),
        Err(Error::QuestionNotFound)
    );
    assert_eq!(store.delete_question(&id), Err(Error::QuestionNotFound));
}

#[test]
fn concurrent_answers_all_kept() {
    let mut store = Store::new();
    let id = QuestionId("q1".to_string());
    store.add_question(question("q1", "t", "c", None)).unwrap();
    let a1 = store.add_answer(&id, Some("first")).unwrap();
    let a2 = store.add_answer(&id, Some("second")).unwrap();
    assert_eq!(a1.id.0.len(), 36);
    assert_eq!(a2.id.0.len(), 36);
    assert_ne!(a1.id, a2.id);
    let answers = store.get_answers(&id);
    assert_eq!(answers.len(), 2);
    assert!(answers.contains(&a1));
    assert!(answers.contains(&a2));
}

#[test]
fn answer_to_missing_question() {
    let mut store = Store::new();
    store.add_question(question("q1", "t", "c", None)).unwrap();
    let known = QuestionId("q1".to_string());
    let unknown = QuestionId("nope".to_string());
    store.add_answer(&known, Some("kept")).unwrap();
    assert_eq!(
        store.add_answer(&unknown, Some("hello")),
        Err(Error::QuestionNotFound)
    );
    assert_eq!(store.get_answers(&known).len(), 1);
    assert_eq!(store.get_answers(&unknown).len(), 0);
}

#[test]
fn answer_without_content() {
    let mut store = Store::new();
    store.add_question(question("q1", "t", "c", None)).unwrap();
    let id = QuestionId("q1".to_string());
    assert_eq!(store.add_answer(&id, Some("")), Err(Error::ContentNotGiven));
    assert_eq!(store.add_answer(&id, None), Err(Error::ContentNotGiven));
    assert_eq!(store.get_answers(&id).len(), 0);
}

#[test]
fn answer_with_chosen_id() {
    let mut store = Store::new();
    store.add_question(question("q1", "t", "c", None)).unwrap();
    let qid = QuestionId("q1".to_string());
    let a = store
        .add_answer_with_id(&qid, Some("by hand"), qa_board::AnswerId("a1".to_string()))
        .unwrap();
    assert_eq!(a, Answer::new("a1", "by hand", QuestionId("q1".to_string())));
    let replaced = store
        .add_answer_with_id(&qid, Some("again"), qa_board::AnswerId("a1".to_string()))
        .unwrap();
    let answers = store.get_answers(&qid);
    assert_eq!(answers.len(), 1);
    assert_eq!(answers[0], replaced);
}

#[test]
fn question_round_trip() {
    let with_tags = question("q-7", "a \"quoted\" title", "back\\slash body", Some(vec![
        "faq", "", "we\"ird\\tag",
    ]));
    let encoded = encode_question(&with_tags);
    assert_eq!(decode_question(&encoded), Some(with_tags));
    let no_tags = question("1", "First", "Random", None);
    assert_eq!(decode_question(&encode_question(&no_tags)), Some(no_tags));
    let empty_tags = question("2", "", "", Some(vec![]));
    assert_eq!(
        decode_question(&encode_question(&empty_tags)),
        Some(empty_tags)
    );
}

#[test]
fn encoding_is_json_shaped() {
    let q = question("1", "t", "c", None);
    assert_eq!(
        encode_question(&q),
        "{\"id\":\"1\",\"title\":\"t\",\"content\":\"c\",\"tags\":null}"
    );
    let tagged = question("1", "t", "c", Some(vec!["a", "b"]));
    assert_eq!(
        encode_question(&tagged),
        "{\"id\":\"1\",\"title\":\"t\",\"content\":\"c\",\"tags\":[\"a\",\"b\"]}"
    );
}

#[test]
fn decoding_rejects_other_text() {
    assert_eq!(decode_question(""), None);
    assert_eq!(decode_question("{}"), None);
    assert_eq!(decode_question("{\"id\":\"1\"}"), None);
    let good = encode_question(&question("1", "t", "c", None));
    let mut trailing = good.clone();
    trailing.push(' ');
    assert_eq!(decode_question(&trailing), None);
    assert_eq!(decode_question(&good[..good.len() - 1]), None);
}

#[test]
fn error_mapping() {
    assert_eq!(Error::NotParsable.status(), 422);
    assert_eq!(Error::MissingParameter.status(), 400);
    assert_eq!(Error::QuestionNotFound.status(), 404);
    assert_eq!(Error::AnswerNotFound.status(), 404);
    assert_eq!(Error::ContentNotGiven.status(), 422);
    assert_eq!(Error::DuplicateId.status(), 422);
    assert_eq!(Error::OutOfRange.status(), 400);
    assert_eq!(Error::BackendUnavailable.status(), 404);
    assert_eq!(Error::QuestionNotFound.message(), "Question Not found!");
    assert_eq!(Error::MissingParameter.message(), "Only one of them is sent!");
    assert_eq!(Error::NotParsable.message(), "Parse Error!");
    assert_eq!(Error::ContentNotGiven.message(), "Content Not Given!");
}

#[test]
fn board_scenario() {
    let mut store = Store::new();
    store
        .add_question(question("1", "First", "Random", Some(vec!["faq"])))
        .unwrap();
    let id = QuestionId("1".to_string());
    let got = store.get_question(&id).unwrap();
    assert_eq!(got, question("1", "First", "Random", Some(vec!["faq"])));
    assert_eq!(store.get_answers(&id), Vec::<Answer>::new());
    let answer = store.add_answer(&id, Some("hi")).unwrap();
    assert_eq!(answer.id.0.len(), 36);
    assert_eq!(answer.content, "hi");
    let answers = store.get_answers(&id);
    assert_eq!(answers.len(), 1);
    assert_eq!(answers[0].content, "hi");
    assert_eq!(answers[0].question_id, id);
}
