use musica::errors::Error;
use musica::errors::Field;
use musica::parser::handle_node;
use musica::parser::Rule;
use musica::parser::SyntaxNode;
use musica::storage::INonMessageModel;
use musica::storage::InsertModel;
use musica::storage::InsertModelBuilder;
use musica::storage::SegmentStore;

fn leaf(rule: Rule, text: &str) -> SyntaxNode {
    SyntaxNode {
        rule,
        text: text.to_string(),
        children: Vec::new(),
    }
}

fn node(rule: Rule, text: &str, children: Vec<SyntaxNode>) -> SyntaxNode {
    SyntaxNode {
        rule,
        text: text.to_string(),
        children,
    }
}

fn fresh_store() -> SegmentStore {
    let mut store = SegmentStore::new(String::from("walk.sc"));
    store.ensure_schema();
    store
}

#[test]
fn silent_rules_do_nothing() {
    let mut store = fresh_store();
    let r = handle_node(&leaf(Rule::EOI, ""), 5, &mut store);
    assert!(matches!(r, Ok(None)));
    assert_eq!(store.len(), 0);
}

#[test]
fn direct_rules_persist_one_stamped_segment() {
    let mut store = fresh_store();
    let r = handle_node(&leaf(Rule::IComment, ";hey"), 7, &mut store);
    assert!(matches!(r, Ok(None)));
    assert_eq!(
        store.segments().as_slice(),
        &[InsertModel::INonMessage(INonMessageModel {
            line: 7,
            content: String::from(";hey"),
        })]
    );
}

#[test]
fn number_atom_hands_back_an_id_fragment() {
    let mut store = fresh_store();
    let r = handle_node(&leaf(Rule::MessageNumber, "12"), 0, &mut store);
    match r {
        Ok(Some(InsertModelBuilder::IMessage(b))) => {
            assert_eq!(b.id, Some(12));
            assert_eq!(b.line, None);
        }
        _ => panic!("expected a message fragment"),
    }
    let bad = handle_node(&leaf(Rule::MessageNumber, "12x"), 0, &mut store);
    assert!(matches!(bad, Err(Error::ParseError)));
    assert_eq!(store.len(), 0);
}

#[test]
fn duplicate_atoms_conflict_during_the_walk() {
    let mut store = fresh_store();
    let tree = node(
        Rule::IMessage,
        "1 2 \"x\"",
        vec![node(
            Rule::IMessageUnnamed,
            "1 2 \"x\"",
            vec![
                leaf(Rule::MessageNumber, "1"),
                leaf(Rule::MessageNumber, "2"),
                leaf(Rule::MessageContentQuoted, "x"),
            ],
        )],
    );
    let r = handle_node(&tree, 0, &mut store);
    assert!(matches!(r, Err(Error::MergeConflict(Field::Id))));
    assert_eq!(store.len(), 0);
}

#[test]
fn message_wrapping_a_non_message_fails_after_persisting_it() {
    let mut store = fresh_store();
    let tree = node(Rule::IMessage, ";c", vec![leaf(Rule::IComment, ";c")]);
    let r = handle_node(&tree, 3, &mut store);
    assert!(matches!(r, Err(Error::ParseError)));
    assert_eq!(store.len(), 1);
}

#[test]
fn empty_message_node_is_a_no_op() {
    let mut store = fresh_store();
    let r = handle_node(&node(Rule::IMessage, "", Vec::new()), 0, &mut store);
    assert!(matches!(r, Ok(None)));
    assert_eq!(store.len(), 0);
}

#[test]
fn top_level_children_get_consecutive_line_numbers() {
    let mut store = fresh_store();
    let tree = node(
        Rule::Musica,
        ";a\n;b\n;c",
        vec![
            leaf(Rule::IComment, ";a"),
            leaf(Rule::EOI, ""),
            leaf(Rule::IComment, ";c"),
        ],
    );
    let r = handle_node(&tree, 0, &mut store);
    assert!(matches!(r, Ok(None)));
    let lines: Vec<i32> = store
        .segments()
        .iter()
        .map(|s| match s {
            InsertModel::IMessage(m) => m.line,
            InsertModel::INonMessage(m) => m.line,
        })
        .collect();
    assert_eq!(lines, vec![0, 2]);
}
