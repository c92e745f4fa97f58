use musica::errors::Error;
use musica::scoped::ScopedStaticStr;
use musica::storage::IMessageModel;
use musica::storage::InsertModel;
use musica::storage::TextSegmentType;
use musica::utils::IntoAnyResult;

#[test]
fn scoped_str_hands_out_its_buffer() {
    let owner = ScopedStaticStr::new(String::from("file contents"));
    let borrowed = owner.as_static_str();
    assert_eq!(borrowed, "file contents");
    assert_eq!(owner.as_static_str().len(), 13);
}

#[test]
fn into_any_result_maps_present_and_absent() {
    let some: Option<u32> = Some(9);
    assert_eq!(some.into_any_result(), Ok(9));
    let none: Option<u32> = None;
    assert_eq!(none.into_any_result(), Err(Error::ParseError));
}

#[test]
fn segment_type_tags_variants() {
    let m = InsertModel::IMessage(IMessageModel {
        line: 0,
        id: 1,
        name: String::new(),
        tachie: String::new(),
        content: String::from("c"),
    });
    assert_eq!(m.segment_type(), TextSegmentType::IMessage);
    let n = InsertModel::INonMessage(musica::storage::INonMessageModel {
        line: 0,
        content: String::from("c"),
    });
    assert_eq!(n.segment_type(), TextSegmentType::INonMessage);
}
