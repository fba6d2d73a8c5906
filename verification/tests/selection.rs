use collider::selection::{
    peek_is_primary_field, PrimarySelectionField, SelectionError, SelectionInput, SelectionToken,
};

fn ident(s: &str) -> SelectionToken {
    SelectionToken::Ident(s.as_bytes().to_vec())
}

fn punct(c: char) -> SelectionToken {
    SelectionToken::Punct(c as u8)
}

fn group(open: char, inner: Vec<SelectionToken>) -> SelectionToken {
    SelectionToken::Group(open as u8, inner)
}

fn primary(name: &str, access: &str, component: &str) -> Vec<SelectionToken> {
    vec![ident(name), punct(':'), ident(access), punct('<'), ident(component), punct('>')]
}

fn text(bytes: &[u8]) -> String {
    String::from_utf8(bytes.to_vec()).unwrap()
}

#[test]
fn parses_primary_and_secondary_fields() {
    let mut body = primary("pos", "Read", "Position");
    body.push(punct(','));
    body.extend(primary("vel", "Write", "Velocity"));
    body.push(punct(','));
    body.extend(vec![ident("extra"), punct(':'), ident("Other"), punct(',')]);
    let tokens = vec![
        punct('#'),
        group('[', vec![ident("derive"), group('(', vec![ident("Debug")])]),
        ident("struct"),
        ident("Movement"),
        group('{', body),
    ];
    let sel = SelectionInput::parse(tokens).expect("selection");
    assert_eq!(text(&sel.name), "Movement");
    assert_eq!(sel.primary_fields.len(), 2);
    assert_eq!(text(&sel.primary_fields[0].name()), "pos");
    assert_eq!(text(&sel.primary_fields[0].access()), "Read");
    assert_eq!(text(&sel.primary_fields[0].component()), "Position");
    assert!(matches!(sel.primary_fields[1], PrimarySelectionField::Write { .. }));
    assert_eq!(text(&sel.primary_fields[1].component()), "Velocity");
    assert_eq!(sel.secondary_tokens.len(), 4);
    let reads: Vec<String> = sel.reads().iter().map(|b| text(b)).collect();
    let writes: Vec<String> = sel.writes().iter().map(|b| text(b)).collect();
    assert_eq!(reads, vec!["Position".to_string()]);
    assert_eq!(writes, vec!["Velocity".to_string()]);
}

#[test]
fn primary_fields_without_commas() {
    let mut body = primary("a", "Write", "A");
    body.extend(primary("b", "Write", "B"));
    let tokens = vec![ident("struct"), ident("S"), group('{', body)];
    let sel = SelectionInput::parse(tokens).unwrap();
    assert_eq!(sel.primary_fields.len(), 2);
    assert_eq!(sel.reads().len(), 0);
    assert_eq!(sel.writes().len(), 2);
    assert!(sel.secondary_tokens.is_empty());
}

#[test]
fn empty_body_has_no_fields() {
    let tokens = vec![ident("struct"), ident("Empty"), group('{', vec![])];
    let sel = SelectionInput::parse(tokens).unwrap();
    assert!(sel.primary_fields.is_empty());
    assert!(sel.secondary_tokens.is_empty());
}

#[test]
fn peek_needs_ident_punct_access() {
    let toks = primary("pos", "Read", "Position");
    assert!(peek_is_primary_field(&toks, 0));
    assert!(!peek_is_primary_field(&toks, 1));
    let other = vec![ident("x"), punct(':'), ident("Other")];
    assert!(!peek_is_primary_field(&other, 0));
    assert!(!peek_is_primary_field(&vec![ident("x"), punct(':')], 0));
}

#[test]
fn primary_field_parse_reports_end() {
    let mut toks = primary("pos", "Read", "Position");
    toks.push(punct(','));
    let (field, end) = PrimarySelectionField::parse(&toks, 0).unwrap();
    assert_eq!(end, 7);
    assert_eq!(text(&field.name()), "pos");
    let toks = primary("pos", "Read", "Position");
    let (_, end) = PrimarySelectionField::parse(&toks, 0).unwrap();
    assert_eq!(end, 6);
}

#[test]
fn malformed_primary_field() {
    let body = vec![ident("pos"), punct('='), ident("Read"), punct('<'), ident("P"), punct('>')];
    let tokens = vec![ident("struct"), ident("S"), group('{', body)];
    assert_eq!(SelectionInput::parse(tokens).unwrap_err(), SelectionError::MalformedPrimaryField);
}

#[test]
fn selection_errors() {
    assert_eq!(
        SelectionInput::parse(vec![punct('#'), ident("struct")]).unwrap_err(),
        SelectionError::ExpectedAttribute
    );
    assert_eq!(
        SelectionInput::parse(vec![ident("enum"), ident("S"), group('{', vec![])]).unwrap_err(),
        SelectionError::ExpectedStruct
    );
    assert_eq!(
        SelectionInput::parse(vec![ident("struct"), group('{', vec![])]).unwrap_err(),
        SelectionError::ExpectedName
    );
    assert_eq!(
        SelectionInput::parse(vec![ident("struct"), ident("S"), group('(', vec![])]).unwrap_err(),
        SelectionError::ExpectedBody
    );
    assert_eq!(
        SelectionInput::parse(vec![ident("struct"), ident("S"), group('{', vec![]), punct(';')]).unwrap_err(),
        SelectionError::UnexpectedToken
    );
}

#[test]
fn generated_names() {
    let tokens = vec![ident("struct"), ident("Movement"), group('{', primary("pos", "Read", "Position"))];
    let sel = SelectionInput::parse(tokens).unwrap();
    assert_eq!(text(&sel.iter_name()), "MovementIter");
    assert_eq!(text(&sel.iter_item_name()), "MovementIterItem");
    assert_eq!(text(&sel.primary_fields[0].private_name()), "__pos");
}
