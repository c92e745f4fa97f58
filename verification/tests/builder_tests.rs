use musica::errors::Error;
use musica::errors::Field;
use musica::storage::IMessageModel;
use musica::storage::INonMessageModel;
use musica::storage::InsertModelBuilder;

#[test]
fn new_builders_are_empty() {
    let m = InsertModelBuilder::new_message();
    assert_eq!(m.line, None);
    assert_eq!(m.id, None);
    assert_eq!(m.name, None);
    assert_eq!(m.tachie, None);
    assert_eq!(m.content, None);
    let n = InsertModelBuilder::new_non_message();
    assert_eq!(n.line, None);
    assert_eq!(n.content, None);
}

#[test]
fn combine_disjoint_fields_is_union() {
    let a = InsertModelBuilder::new_message().id(7);
    let b = InsertModelBuilder::new_message().name(String::from("Alice"));
    let c = a.combine(InsertModelBuilder::IMessage(b)).unwrap();
    assert_eq!(c.id, Some(7));
    assert_eq!(c.name, Some(String::from("Alice")));
    assert_eq!(c.line, None);
    assert_eq!(c.tachie, None);
    assert_eq!(c.content, None);
}

#[test]
fn combine_same_field_conflicts_both_orders() {
    let a = InsertModelBuilder::new_message().content(String::from("x"));
    let b = InsertModelBuilder::new_message().content(String::from("y"));
    let r1 = a.clone().combine(InsertModelBuilder::IMessage(b.clone()));
    let r2 = b.combine(InsertModelBuilder::IMessage(a));
    assert_eq!(r1.unwrap_err(), Error::MergeConflict(Field::Content));
    assert_eq!(r2.unwrap_err(), Error::MergeConflict(Field::Content));
}

#[test]
fn combine_reports_first_conflicting_field() {
    let a = InsertModelBuilder::new_message().line(1).id(2);
    let b = InsertModelBuilder::new_message().line(3).id(4);
    let r = a.combine(InsertModelBuilder::IMessage(b));
    assert_eq!(r.unwrap_err(), Error::MergeConflict(Field::Line));
}

#[test]
fn combine_across_variants_is_type_mismatch_both_orders() {
    let m = InsertModelBuilder::new_message().id(1);
    let n = InsertModelBuilder::new_non_message().line(0);
    let r1 = m.clone().combine(InsertModelBuilder::INonMessage(n.clone()));
    assert_eq!(r1.unwrap_err(), Error::TypeMismatch);
    let r2 = n.combine(InsertModelBuilder::IMessage(m));
    assert_eq!(r2.unwrap_err(), Error::TypeMismatch);
}

#[test]
fn enum_combine_delegates_by_variant() {
    let a = InsertModelBuilder::IMessage(InsertModelBuilder::new_message().id(1));
    let b = InsertModelBuilder::IMessage(InsertModelBuilder::new_message().content(String::from("c")));
    match a.combine(b) {
        Ok(InsertModelBuilder::IMessage(m)) => {
            assert_eq!(m.id, Some(1));
            assert_eq!(m.content, Some(String::from("c")));
        }
        _ => panic!("expected a combined message fragment"),
    }
    let c = InsertModelBuilder::INonMessage(InsertModelBuilder::new_non_message().line(9));
    let d = InsertModelBuilder::IMessage(InsertModelBuilder::new_message().id(1));
    assert_eq!(c.combine(d).unwrap_err(), Error::TypeMismatch);
}

#[test]
fn build_without_id_fails_then_succeeds_with_defaults() {
    let b = InsertModelBuilder::new_message()
        .line(2)
        .content(String::from("Hi"));
    let r = b.clone().build();
    assert_eq!(r.unwrap_err(), Error::BuildError(Field::Id));
    let ok = b.id(5).build().unwrap();
    assert_eq!(
        ok,
        IMessageModel {
            line: 2,
            id: 5,
            name: String::new(),
            tachie: String::new(),
            content: String::from("Hi"),
        }
    );
}

#[test]
fn build_reports_first_missing_mandatory_field() {
    let r = InsertModelBuilder::new_message().build();
    assert_eq!(r.unwrap_err(), Error::BuildError(Field::Line));
    let r = InsertModelBuilder::new_message().line(0).build();
    assert_eq!(r.unwrap_err(), Error::BuildError(Field::Id));
    let r = InsertModelBuilder::new_message().line(0).id(1).build();
    assert_eq!(r.unwrap_err(), Error::BuildError(Field::Content));
}

#[test]
fn non_message_build_requires_line_and_content() {
    let r = InsertModelBuilder::new_non_message().build();
    assert_eq!(r.unwrap_err(), Error::BuildError(Field::Line));
    let r = InsertModelBuilder::new_non_message().line(3).build();
    assert_eq!(r.unwrap_err(), Error::BuildError(Field::Content));
    let ok = InsertModelBuilder::new_non_message()
        .line(3)
        .content(String::from(";note"))
        .build()
        .unwrap();
    assert_eq!(
        ok,
        INonMessageModel {
            line: 3,
            content: String::from(";note"),
        }
    );
}
