use smartcalc::ui_token::{UiToken, UiTokenCollection, UiTokenType};

#[test]
fn collection_test_1() {
    let mut collection = UiTokenCollection::new();
    assert_eq!(collection.len(), 0);

    collection.add(0, 10, UiTokenType::Money);
    assert_eq!(collection.len(), 1);

    collection.add(10, 11, UiTokenType::Money);
    assert_eq!(collection.len(), 2);

    collection.add(10, 11, UiTokenType::Money);
    assert_eq!(collection.len(), 2);
}

#[test]
fn collection_test_2() {
    let mut collection = UiTokenCollection::new();
    collection.generate_char_map("test data");
    assert_eq!(collection.len(), 0);

    let re = regex::Regex::new("test").unwrap();
    for capture in re.captures_iter("test data") {
        collection.add_from_regex_match(
            capture.get(0).map(|m| (m.start(), m.end())),
            UiTokenType::Text,
        );
    }
    assert_eq!(collection.len(), 1);

    for capture in re.captures_iter("test data") {
        collection.add_from_regex_match(
            capture.get(0).map(|m| (m.start(), m.end())),
            UiTokenType::Money,
        );
    }
    assert_eq!(collection.len(), 1);
}

#[test]
fn collection_test_3() {
    let mut collection = UiTokenCollection::new();
    collection.generate_char_map("test test test");
    assert_eq!(collection.len(), 0);

    let re = regex::Regex::new("test").unwrap();
    for capture in re.captures_iter("test test test") {
        collection.add_from_regex_match(
            capture.get(0).map(|m| (m.start(), m.end())),
            UiTokenType::Text,
        );
    }
    assert_eq!(collection.len(), 3);

    let mut tokens = Vec::new();
    tokens.push(UiToken { start: 0, end: 4, ui_type: UiTokenType::Text });
    tokens.push(UiToken { start: 5, end: 9, ui_type: UiTokenType::Text });
    tokens.push(UiToken { start: 10, end: 14, ui_type: UiTokenType::Text });

    for (index, token) in collection.iter().iter().enumerate() {
        assert_eq!(token, &tokens[index]);
    }
}

#[test]
fn collection_test_4() {
    let mut collection = UiTokenCollection::new();
    collection.generate_char_map("kayit yenileme");
    collection.add(0, 5, UiTokenType::Text);
    collection.add(6, 14, UiTokenType::Text);
    assert_eq!(collection.len(), 2);

    collection.update_tokens(0, 14, UiTokenType::VariableDefination);
    assert_eq!(collection.len(), 1);

    assert_eq!(
        collection.iter()[0],
        UiToken { start: 0, end: 14, ui_type: UiTokenType::VariableDefination }
    );
}

#[test]
fn collection_test_5() {
    let mut collection = UiTokenCollection::new();
    collection.generate_char_map("kayit yenileme islemi");
    collection.add(0, 5, UiTokenType::Text);
    collection.add(6, 14, UiTokenType::Text);
    collection.add(15, 21, UiTokenType::Text);
    assert_eq!(collection.len(), 3);

    collection.update_tokens(6, 21, UiTokenType::VariableDefination);
    assert_eq!(collection.len(), 2);

    assert_eq!(collection.iter()[0], UiToken { start: 0, end: 5, ui_type: UiTokenType::Text });
    assert_eq!(
        collection.iter()[1],
        UiToken { start: 6, end: 21, ui_type: UiTokenType::VariableDefination }
    );
}
