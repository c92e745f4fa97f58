//! Segment models, mergeable builders, and the per-file segment stores.
//!
//! A finished segment is either a message (a dialogue line with a numeric id,
//! optional speaker name and sprite tag, and content) or a non-message (any
//! other extracted script line). Builders accumulate the fields of one
//! segment while a syntax subtree is walked; two builders of the same variant
//! can be combined, field by field, with conflict detection.

use vstd::prelude::*;

use crate::errors::Error;
use crate::errors::Field;

verus! {

/// The variant tag a persisted segment record carries.
#[derive(Clone, Copy, Debug, PartialEq, Eq, Structural)]
pub enum TextSegmentType {
    IMessage,
    INonMessage,
}

/// A finished message segment.
#[derive(Clone, Debug, PartialEq, Eq)]
pub struct IMessageModel {
    pub line: i32,
    pub id: i32,
    pub name: String,
    pub tachie: String,
    pub content: String,
}

/// A finished non-message segment.
#[derive(Clone, Debug, PartialEq, Eq)]
pub struct INonMessageModel {
    pub line: i32,
    pub content: String,
}

/// A finished segment of either variant, ready to be persisted.
#[derive(Clone, Debug, PartialEq, Eq)]
pub enum InsertModel {
    IMessage(IMessageModel),
    INonMessage(INonMessageModel),
}

/// Mathematical model of a message segment: strings as character sequences,
/// numbers as unbounded integers.
pub ghost struct IMessageModelView {
    pub line: int,
    pub id: int,
    pub name: Seq<char>,
    pub tachie: Seq<char>,
    pub content: Seq<char>,
}

/// Mathematical model of a non-message segment.
pub ghost struct INonMessageModelView {
    pub line: int,
    pub content: Seq<char>,
}

/// Mathematical model of a finished segment.
pub ghost enum InsertModelView {
    IMessage(IMessageModelView),
    INonMessage(INonMessageModelView),
}

impl View for IMessageModel {
    type V = IMessageModelView;

    open spec fn view(&self) -> IMessageModelView {
        IMessageModelView {
            line: self.line as int,
            id: self.id as int,
            name: self.name@,
            tachie: self.tachie@,
            content: self.content@,
        }
    }
}

impl View for INonMessageModel {
    type V = INonMessageModelView;

    open spec fn view(&self) -> INonMessageModelView {
        INonMessageModelView { line: self.line as int, content: self.content@ }
    }
}

impl View for InsertModel {
    type V = InsertModelView;

    open spec fn view(&self) -> InsertModelView {
        match self {
            InsertModel::IMessage(m) => InsertModelView::IMessage(m@),
            InsertModel::INonMessage(m) => InsertModelView::INonMessage(m@),
        }
    }
}

impl InsertModel {
    /// The variant tag under which this segment is persisted.
    pub fn segment_type(&self) -> (t: TextSegmentType)
        ensures
            t == self@.segment_type(),
    {
        match self {
            InsertModel::IMessage(_) => TextSegmentType::IMessage,
            InsertModel::INonMessage(_) => TextSegmentType::INonMessage,
        }
    }
}

impl InsertModelView {
    pub open spec fn segment_type(self) -> TextSegmentType {
        match self {
            InsertModelView::IMessage(_) => TextSegmentType::IMessage,
            InsertModelView::INonMessage(_) => TextSegmentType::INonMessage,
        }
    }
}

/// A partial message segment: every field optional, set at most once.
#[derive(Clone, Debug, PartialEq, Eq)]
pub struct IMessageModelBuilder {
    pub line: Option<i32>,
    pub id: Option<i32>,
    pub name: Option<String>,
    pub tachie: Option<String>,
    pub content: Option<String>,
}

/// A partial non-message segment.
#[derive(Clone, Debug, PartialEq, Eq)]
pub struct INonMessageModelBuilder {
    pub line: Option<i32>,
    pub content: Option<String>,
}

/// A partial segment of either variant.
#[derive(Clone, Debug, PartialEq, Eq)]
pub enum InsertModelBuilder {
    IMessage(IMessageModelBuilder),
    INonMessage(INonMessageModelBuilder),
}

/// Mathematical model of a partial message segment.
pub ghost struct IMessageModelBuilderView {
    pub line: Option<int>,
    pub id: Option<int>,
    pub name: Option<Seq<char>>,
    pub tachie: Option<Seq<char>>,
    pub content: Option<Seq<char>>,
}

/// Mathematical model of a partial non-message segment.
pub ghost struct INonMessageModelBuilderView {
    pub line: Option<int>,
    pub content: Option<Seq<char>>,
}

/// Mathematical model of a partial segment of either variant.
pub ghost enum InsertModelBuilderView {
    IMessage(IMessageModelBuilderView),
    INonMessage(INonMessageModelBuilderView),
}

pub open spec fn view_opt_string(o: Option<String>) -> Option<Seq<char>> {
    match o {
        Option::Some(s) => Option::Some(s@),
        Option::None => Option::None,
    }
}

pub open spec fn view_opt_i32(o: Option<i32>) -> Option<int> {
    match o {
        Option::Some(v) => Option::Some(v as int),
        Option::None => Option::None,
    }
}

impl View for IMessageModelBuilder {
    type V = IMessageModelBuilderView;

    open spec fn view(&self) -> IMessageModelBuilderView {
        IMessageModelBuilderView {
            line: view_opt_i32(self.line),
            id: view_opt_i32(self.id),
            name: view_opt_string(self.name),
            tachie: view_opt_string(self.tachie),
            content: view_opt_string(self.content),
        }
    }
}

impl View for INonMessageModelBuilder {
    type V = INonMessageModelBuilderView;

    open spec fn view(&self) -> INonMessageModelBuilderView {
        INonMessageModelBuilderView {
            line: view_opt_i32(self.line),
            content: view_opt_string(self.content),
        }
    }
}

impl View for InsertModelBuilder {
    type V = InsertModelBuilderView;

    open spec fn view(&self) -> InsertModelBuilderView {
        match self {
            InsertModelBuilder::IMessage(b) => InsertModelBuilderView::IMessage(b@),
            InsertModelBuilder::INonMessage(b) => InsertModelBuilderView::INonMessage(b@),
        }
    }
}

/// Both sides of a field merge carry a value: the merge must fail.
pub open spec fn both_set<T>(a: Option<T>, b: Option<T>) -> bool {
    a is Some && b is Some
}

/// The value a non-conflicting field merge keeps: the side that is set,
/// if any.
pub open spec fn merged<T>(a: Option<T>, b: Option<T>) -> Option<T> {
    if a is Some {
        a
    } else {
        b
    }
}

/// Merges one field of two builder fragments; a value on both sides is a
/// conflict, named with the offending field.
fn merge_exclusive<T>(a: Option<T>, b: Option<T>, field: Field) -> (r: Result<Option<T>, Error>)
    ensures
        both_set(a, b) ==> r == Err::<Option<T>, Error>(Error::MergeConflict(field)),
        !both_set(a, b) ==> r == Ok::<Option<T>, Error>(merged(a, b)),
{
    match (a, b) {
        (Option::Some(_), Option::Some(_)) => Err(Error::MergeConflict(field)),
        (Option::Some(x), Option::None) => Ok(Option::Some(x)),
        (Option::None, y) => Ok(y),
    }
}

/// What combining two message fragments yields: the first field set on both
/// sides (in the order line, id, name, tachie, content) is a conflict;
/// otherwise the fragments' union.
pub open spec fn message_combine(
    a: IMessageModelBuilderView,
    b: IMessageModelBuilderView,
) -> Result<IMessageModelBuilderView, Error> {
    if both_set(a.line, b.line) {
        Err(Error::MergeConflict(Field::Line))
    } else if both_set(a.id, b.id) {
        Err(Error::MergeConflict(Field::Id))
    } else if both_set(a.name, b.name) {
        Err(Error::MergeConflict(Field::Name))
    } else if both_set(a.tachie, b.tachie) {
        Err(Error::MergeConflict(Field::Tachie))
    } else if both_set(a.content, b.content) {
        Err(Error::MergeConflict(Field::Content))
    } else {
        Ok(
            IMessageModelBuilderView {
                line: merged(a.line, b.line),
                id: merged(a.id, b.id),
                name: merged(a.name, b.name),
                tachie: merged(a.tachie, b.tachie),
                content: merged(a.content, b.content),
            },
        )
    }
}

/// What combining two non-message fragments yields.
pub open spec fn non_message_combine(
    a: INonMessageModelBuilderView,
    b: INonMessageModelBuilderView,
) -> Result<INonMessageModelBuilderView, Error> {
    if both_set(a.line, b.line) {
        Err(Error::MergeConflict(Field::Line))
    } else if both_set(a.content, b.content) {
        Err(Error::MergeConflict(Field::Content))
    } else {
        Ok(
            INonMessageModelBuilderView {
                line: merged(a.line, b.line),
                content: merged(a.content, b.content),
            },
        )
    }
}

/// What combining two fragments of either variant yields: fragments of
/// different variants never combine.
pub open spec fn builder_combine(
    a: InsertModelBuilderView,
    b: InsertModelBuilderView,
) -> Result<InsertModelBuilderView, Error> {
    match (a, b) {
        (InsertModelBuilderView::IMessage(x), InsertModelBuilderView::IMessage(y)) => {
            match message_combine(x, y) {
                Ok(c) => Ok(InsertModelBuilderView::IMessage(c)),
                Err(e) => Err(e),
            }
        },
        (InsertModelBuilderView::INonMessage(x), InsertModelBuilderView::INonMessage(y)) => {
            match non_message_combine(x, y) {
                Ok(c) => Ok(InsertModelBuilderView::INonMessage(c)),
                Err(e) => Err(e),
            }
        },
        _ => Err(Error::TypeMismatch),
    }
}

/// What finalizing a message builder yields: `line`, `id` and `content` are
/// mandatory (the first missing one, in that order, is reported); `name` and
/// `tachie` default to the empty string.
pub open spec fn message_build(a: IMessageModelBuilderView) -> Result<IMessageModelView, Error> {
    if a.line is None {
        Err(Error::BuildError(Field::Line))
    } else if a.id is None {
        Err(Error::BuildError(Field::Id))
    } else if a.content is None {
        Err(Error::BuildError(Field::Content))
    } else {
        Ok(
            IMessageModelView {
                line: a.line->0,
                id: a.id->0,
                name: or_empty(a.name),
                tachie: or_empty(a.tachie),
                content: a.content->0,
            },
        )
    }
}

/// What finalizing a non-message builder yields: `line` and `content` are
/// mandatory.
pub open spec fn non_message_build(
    a: INonMessageModelBuilderView,
) -> Result<INonMessageModelView, Error> {
    if a.line is None {
        Err(Error::BuildError(Field::Line))
    } else if a.content is None {
        Err(Error::BuildError(Field::Content))
    } else {
        Ok(INonMessageModelView { line: a.line->0, content: a.content->0 })
    }
}

pub open spec fn or_empty(o: Option<Seq<char>>) -> Seq<char> {
    match o {
        Option::Some(s) => s,
        Option::None => Seq::empty(),
    }
}

impl IMessageModelBuilder {
    /// Sets the line number; the other fields are kept.
    pub fn line(self, v: i32) -> (r: Self)
        ensures
            r@ == (IMessageModelBuilderView { line: Option::Some(v as int), ..self@ }),
    {
        IMessageModelBuilder {
            line: Option::Some(v),
            id: self.id,
            name: self.name,
            tachie: self.tachie,
            content: self.content,
        }
    }

    /// Sets the numeric message id; the other fields are kept.
    pub fn id(self, v: i32) -> (r: Self)
        ensures
            r@ == (IMessageModelBuilderView { id: Option::Some(v as int), ..self@ }),
    {
        IMessageModelBuilder {
            line: self.line,
            id: Option::Some(v),
            name: self.name,
            tachie: self.tachie,
            content: self.content,
        }
    }

    /// Sets the speaker name; the other fields are kept.
    pub fn name(self, v: String) -> (r: Self)
        ensures
            r@ == (IMessageModelBuilderView { name: Option::Some(v@), ..self@ }),
    {
        IMessageModelBuilder {
            line: self.line,
            id: self.id,
            name: Option::Some(v),
            tachie: self.tachie,
            content: self.content,
        }
    }

    /// Sets the speaker sprite tag; the other fields are kept.
    pub fn tachie(self, v: String) -> (r: Self)
        ensures
            r@ == (IMessageModelBuilderView { tachie: Option::Some(v@), ..self@ }),
    {
        IMessageModelBuilder {
            line: self.line,
            id: self.id,
            name: self.name,
            tachie: Option::Some(v),
            content: self.content,
        }
    }

    /// Sets the message content; the other fields are kept.
    pub fn content(self, v: String) -> (r: Self)
        ensures
            r@ == (IMessageModelBuilderView { content: Option::Some(v@), ..self@ }),
    {
        IMessageModelBuilder {
            line: self.line,
            id: self.id,
            name: self.name,
            tachie: self.tachie,
            content: Option::Some(v),
        }
    }

    /// Combines this message fragment with another fragment, field by field.
    pub fn combine(self, other: InsertModelBuilder) -> (r: Result<Self, Error>)
        ensures
            match r {
                Ok(c) => builder_combine(
                    InsertModelBuilderView::IMessage(self@),
                    other@,
                ) == Ok::<InsertModelBuilderView, Error>(InsertModelBuilderView::IMessage(c@)),
                Err(e) => builder_combine(InsertModelBuilderView::IMessage(self@), other@)
                    == Err::<InsertModelBuilderView, Error>(e),
            },
    {
        match other {
            InsertModelBuilder::INonMessage(_) => Err(Error::TypeMismatch),
            InsertModelBuilder::IMessage(o) => {
                let line = match merge_exclusive(self.line, o.line, Field::Line) {
                    Ok(v) => v,
                    Err(e) => {
                        return Err(e);
                    },
                };
                let id = match merge_exclusive(self.id, o.id, Field::Id) {
                    Ok(v) => v,
                    Err(e) => {
                        return Err(e);
                    },
                };
                let name = match merge_exclusive(self.name, o.name, Field::Name) {
                    Ok(v) => v,
                    Err(e) => {
                        return Err(e);
                    },
                };
                let tachie = match merge_exclusive(self.tachie, o.tachie, Field::Tachie) {
                    Ok(v) => v,
                    Err(e) => {
                        return Err(e);
                    },
                };
                let content = match merge_exclusive(self.content, o.content, Field::Content) {
                    Ok(v) => v,
                    Err(e) => {
                        return Err(e);
                    },
                };
                Ok(IMessageModelBuilder { line, id, name, tachie, content })
            },
        }
    }

    /// Finalizes this builder into a message segment.
    pub fn build(self) -> (r: Result<IMessageModel, Error>)
        ensures
            match r {
                Ok(m) => message_build(self@) == Ok::<IMessageModelView, Error>(m@),
                Err(e) => message_build(self@) == Err::<IMessageModelView, Error>(e),
            },
    {
        match self.line {
            Option::None => Err(Error::BuildError(Field::Line)),
            Option::Some(line) => match self.id {
                Option::None => Err(Error::BuildError(Field::Id)),
                Option::Some(id) => match self.content {
                    Option::None => Err(Error::BuildError(Field::Content)),
                    Option::Some(content) => Ok(
                        IMessageModel {
                            line,
                            id,
                            name: match self.name {
                                Option::Some(n) => n,
                                Option::None => String::new(),
                            },
                            tachie: match self.tachie {
                                Option::Some(t) => t,
                                Option::None => String::new(),
                            },
                            content,
                        },
                    ),
                },
            },
        }
    }
}

impl INonMessageModelBuilder {
    /// Sets the line number; the content is kept.
    pub fn line(self, v: i32) -> (r: Self)
        ensures
            r@ == (INonMessageModelBuilderView { line: Option::Some(v as int), ..self@ }),
    {
        INonMessageModelBuilder { line: Option::Some(v), content: self.content }
    }

    /// Sets the content; the line is kept.
    pub fn content(self, v: String) -> (r: Self)
        ensures
            r@ == (INonMessageModelBuilderView { content: Option::Some(v@), ..self@ }),
    {
        INonMessageModelBuilder { line: self.line, content: Option::Some(v) }
    }

    /// Combines this non-message fragment with another fragment.
    pub fn combine(self, other: InsertModelBuilder) -> (r: Result<Self, Error>)
        ensures
            match r {
                Ok(c) => builder_combine(
                    InsertModelBuilderView::INonMessage(self@),
                    other@,
                ) == Ok::<InsertModelBuilderView, Error>(InsertModelBuilderView::INonMessage(c@)),
                Err(e) => builder_combine(InsertModelBuilderView::INonMessage(self@), other@)
                    == Err::<InsertModelBuilderView, Error>(e),
            },
    {
        match other {
            InsertModelBuilder::IMessage(_) => Err(Error::TypeMismatch),
            InsertModelBuilder::INonMessage(o) => {
                let line = match merge_exclusive(self.line, o.line, Field::Line) {
                    Ok(v) => v,
                    Err(e) => {
                        return Err(e);
                    },
                };
                let content = match merge_exclusive(self.content, o.content, Field::Content) {
                    Ok(v) => v,
                    Err(e) => {
                        return Err(e);
                    },
                };
                Ok(INonMessageModelBuilder { line, content })
            },
        }
    }

    /// Finalizes this builder into a non-message segment.
    pub fn build(self) -> (r: Result<INonMessageModel, Error>)
        ensures
            match r {
                Ok(m) => non_message_build(self@) == Ok::<INonMessageModelView, Error>(m@),
                Err(e) => non_message_build(self@) == Err::<INonMessageModelView, Error>(e),
            },
    {
        match self.line {
            Option::None => Err(Error::BuildError(Field::Line)),
            Option::Some(line) => match self.content {
                Option::None => Err(Error::BuildError(Field::Content)),
                Option::Some(content) => Ok(INonMessageModel { line, content }),
            },
        }
    }
}

impl InsertModelBuilder {
    /// A fresh, empty message builder.
    pub fn new_message() -> (r: IMessageModelBuilder)
        ensures
            r@ == (IMessageModelBuilderView {
                line: Option::None,
                id: Option::None,
                name: Option::None,
                tachie: Option::None,
                content: Option::None,
            }),
    {
        IMessageModelBuilder {
            line: Option::None,
            id: Option::None,
            name: Option::None,
            tachie: Option::None,
            content: Option::None,
        }
    }

    /// A fresh, empty non-message builder.
    pub fn new_non_message() -> (r: INonMessageModelBuilder)
        ensures
            r@ == (INonMessageModelBuilderView { line: Option::None, content: Option::None }),
    {
        INonMessageModelBuilder { line: Option::None, content: Option::None }
    }

    /// Combines two fragments of either variant.
    pub fn combine(self, other: Self) -> (r: Result<Self, Error>)
        ensures
            match r {
                Ok(c) => builder_combine(self@, other@) == Ok::<InsertModelBuilderView, Error>(c@),
                Err(e) => builder_combine(self@, other@) == Err::<InsertModelBuilderView, Error>(
                    e,
                ),
            },
    {
        match self {
            InsertModelBuilder::IMessage(b) => match b.combine(other) {
                Ok(c) => Ok(InsertModelBuilder::IMessage(c)),
                Err(e) => Err(e),
            },
            InsertModelBuilder::INonMessage(b) => match b.combine(other) {
                Ok(c) => Ok(InsertModelBuilder::INonMessage(c)),
                Err(e) => Err(e),
            },
        }
    }
}

/// Combining fragments is commutative: the two orders agree on success, on
/// the offending field of a conflict, and on a variant mismatch.
pub proof fn lemma_builder_combine_commutative(a: InsertModelBuilderView, b: InsertModelBuilderView)
    ensures
        builder_combine(a, b) == builder_combine(b, a),
{
}

/// Combining two fragments of the same variant with disjoint field sets
/// succeeds and keeps every value that either side set.
pub proof fn lemma_builder_combine_disjoint_message(
    a: IMessageModelBuilderView,
    b: IMessageModelBuilderView,
)
    requires
        !both_set(a.line, b.line),
        !both_set(a.id, b.id),
        !both_set(a.name, b.name),
        !both_set(a.tachie, b.tachie),
        !both_set(a.content, b.content),
    ensures
        builder_combine(InsertModelBuilderView::IMessage(a), InsertModelBuilderView::IMessage(b))
            == Ok::<InsertModelBuilderView, Error>(
            InsertModelBuilderView::IMessage(
                IMessageModelBuilderView {
                    line: merged(a.line, b.line),
                    id: merged(a.id, b.id),
                    name: merged(a.name, b.name),
                    tachie: merged(a.tachie, b.tachie),
                    content: merged(a.content, b.content),
                },
            ),
        ),
{
}

/// The non-message form of the disjoint-merge law.
pub proof fn lemma_builder_combine_disjoint_non_message(
    a: INonMessageModelBuilderView,
    b: INonMessageModelBuilderView,
)
    requires
        !both_set(a.line, b.line),
        !both_set(a.content, b.content),
    ensures
        builder_combine(
            InsertModelBuilderView::INonMessage(a),
            InsertModelBuilderView::INonMessage(b),
        ) == Ok::<InsertModelBuilderView, Error>(
            InsertModelBuilderView::INonMessage(
                INonMessageModelBuilderView {
                    line: merged(a.line, b.line),
                    content: merged(a.content, b.content),
                },
            ),
        ),
{
}

/// Fragments of the same variant that both set some field never combine:
/// in either order the result is a `MergeConflict` on the same field.
pub proof fn lemma_builder_combine_conflict(a: InsertModelBuilderView, b: InsertModelBuilderView)
    requires
        a is IMessage <==> b is IMessage,
        match (a, b) {
            (InsertModelBuilderView::IMessage(x), InsertModelBuilderView::IMessage(y)) => {
                ||| both_set(x.line, y.line)
                ||| both_set(x.id, y.id)
                ||| both_set(x.name, y.name)
                ||| both_set(x.tachie, y.tachie)
                ||| both_set(x.content, y.content)
            },
            (InsertModelBuilderView::INonMessage(x), InsertModelBuilderView::INonMessage(y)) => {
                ||| both_set(x.line, y.line)
                ||| both_set(x.content, y.content)
            },
            _ => false,
        },
    ensures
        exists|f: Field|
            builder_combine(a, b) == Err::<InsertModelBuilderView, Error>(Error::MergeConflict(f))
                && builder_combine(b, a) == Err::<InsertModelBuilderView, Error>(
                Error::MergeConflict(f),
            ),
{
    lemma_builder_combine_commutative(a, b);
    match (a, b) {
        (InsertModelBuilderView::IMessage(x), InsertModelBuilderView::IMessage(y)) => {
            if both_set(x.line, y.line) {
                assert(builder_combine(a, b) == Err::<InsertModelBuilderView, Error>(
                    Error::MergeConflict(Field::Line),
                ));
            } else if both_set(x.id, y.id) {
                assert(builder_combine(a, b) == Err::<InsertModelBuilderView, Error>(
                    Error::MergeConflict(Field::Id),
                ));
            } else if both_set(x.name, y.name) {
                assert(builder_combine(a, b) == Err::<InsertModelBuilderView, Error>(
                    Error::MergeConflict(Field::Name),
                ));
            } else if both_set(x.tachie, y.tachie) {
                assert(builder_combine(a, b) == Err::<InsertModelBuilderView, Error>(
                    Error::MergeConflict(Field::Tachie),
                ));
            } else {
                assert(builder_combine(a, b) == Err::<InsertModelBuilderView, Error>(
                    Error::MergeConflict(Field::Content),
                ));
            }
        },
        (InsertModelBuilderView::INonMessage(x), InsertModelBuilderView::INonMessage(y)) => {
            if both_set(x.line, y.line) {
                assert(builder_combine(a, b) == Err::<InsertModelBuilderView, Error>(
                    Error::MergeConflict(Field::Line),
                ));
            } else {
                assert(builder_combine(a, b) == Err::<InsertModelBuilderView, Error>(
                    Error::MergeConflict(Field::Content),
                ));
            }
        },
        _ => {},
    }
}

/// A per-file store of extracted segments, identified by the file's base
/// name. The record layout is provisioned once, idempotently, before the
/// first insert; records then accumulate in insertion order and are never
/// removed.
pub struct SegmentStore {
    name: String,
    schema_ready: bool,
    segments: Vec<InsertModel>,
}

impl View for SegmentStore {
    type V = Seq<InsertModelView>;

    closed spec fn view(&self) -> Seq<InsertModelView> {
        self.segments@.map_values(|m: InsertModel| m@)
    }
}

impl SegmentStore {
    /// The file name this store is keyed by.
    pub closed spec fn name_view(&self) -> Seq<char> {
        self.name@
    }

    /// Whether the record layout has been provisioned.
    pub closed spec fn provisioned(&self) -> bool {
        self.schema_ready
    }

    /// A fresh, empty store for the given file name.
    pub fn new(name: String) -> (r: Self)
        ensures
            r.name_view() == name@,
            !r.provisioned(),
            r@ == Seq::<InsertModelView>::empty(),
    {
        let r = SegmentStore { name, schema_ready: false, segments: Vec::new() };
        proof {
            assert(r@ =~= Seq::<InsertModelView>::empty());
        }
        r
    }

    /// Idempotently provisions the record layout.
    pub fn ensure_schema(&mut self)
        ensures
            final(self)@ == old(self)@,
            final(self).provisioned(),
            final(self).name_view() == old(self).name_view(),
    {
        self.schema_ready = true;
    }

    /// Appends one immutable record. The record's store-assigned position is
    /// not meaningful to the extractor.
    pub fn insert(&mut self, m: InsertModel)
        requires
            old(self).provisioned(),
        ensures
            final(self)@ == old(self)@.push(m@),
            final(self).provisioned(),
            final(self).name_view() == old(self).name_view(),
    {
        self.segments.push(m);
        proof {
            assert(self@ =~= old(self)@.push(m@));
        }
    }

    /// How many segments the store holds.
    pub fn len(&self) -> (n: usize)
        ensures
            n == self@.len(),
    {
        self.segments.len()
    }

    /// The stored segments, in insertion order.
    pub fn segments(&self) -> (r: &Vec<InsertModel>)
        ensures
            r@.map_values(|m: InsertModel| m@) == self@,
    {
        &self.segments
    }

    /// The store's file name.
    pub fn name(&self) -> (r: &String)
        ensures
            r@ == self.name_view(),
    {
        &self.name
    }
}

/// Mathematical model of one registered store.
pub ghost struct StoreModel {
    pub name: Seq<char>,
    pub provisioned: bool,
    pub segments: Seq<InsertModelView>,
}

pub open spec fn store_model(st: SegmentStore) -> StoreModel {
    StoreModel { name: st.name_view(), provisioned: st.provisioned(), segments: st@ }
}

/// Whether some registered store carries the given name.
pub open spec fn has_store(v: Seq<StoreModel>, name: Seq<char>) -> bool {
    exists|i: int| 0 <= i < v.len() && v[i].name == name
}

/// The index of the registered store with the given name.
pub open spec fn store_index(v: Seq<StoreModel>, name: Seq<char>) -> int {
    choose|i: int| 0 <= i < v.len() && v[i].name == name
}

/// The process-wide registry of per-file stores. It keeps every store it
/// ever opened reachable for the rest of the process, so that a name used by
/// one pipeline stage still resolves in another; no store is ever closed.
pub struct StoreRegistry {
    stores: Vec<SegmentStore>,
}

impl View for StoreRegistry {
    type V = Seq<StoreModel>;

    closed spec fn view(&self) -> Seq<StoreModel> {
        self.stores@.map_values(|st: SegmentStore| store_model(st))
    }
}

impl StoreRegistry {
    /// Store names are unique: one store per file name.
    pub open spec fn wf(&self) -> bool {
        forall|i: int, j: int|
            0 <= i < j < self@.len() ==> self@[i].name != self@[j].name
    }

    /// An empty registry.
    pub fn new() -> (r: Self)
        ensures
            r@ == Seq::<StoreModel>::empty(),
            r.wf(),
    {
        let r = StoreRegistry { stores: Vec::new() };
        proof {
            assert(r@ =~= Seq::<StoreModel>::empty());
        }
        r
    }

    /// How many stores are registered.
    pub fn store_count(&self) -> (n: usize)
        ensures
            n == self@.len(),
    {
        self.stores.len()
    }

    /// A reference to the store at a registry position.
    pub fn store_at(&self, idx: usize) -> (r: &SegmentStore)
        requires
            idx < self@.len(),
        ensures
            store_model(*r) == self@[idx as int],
    {
        &self.stores[idx]
    }

    /// The position of the store for `name`, opening a fresh store if none
    /// carries that name yet. An existing store is returned as it is.
    pub fn open_or_create(&mut self, name: &String) -> (idx: usize)
        requires
            old(self).wf(),
        ensures
            final(self).wf(),
            idx < final(self)@.len(),
            final(self)@[idx as int].name == name@,
            has_store(old(self)@, name@) ==> final(self)@ == old(self)@,
            !has_store(old(self)@, name@) ==> final(self)@ == old(self)@.push(
                StoreModel {
                    name: name@,
                    provisioned: false,
                    segments: Seq::<InsertModelView>::empty(),
                },
            ) && idx == old(self)@.len(),
    {
        let n = self.stores.len();
        let mut k: usize = 0;
        while k < n
            invariant
                0 <= k <= n,
                n == self@.len(),
                self@ == old(self)@,
                old(self).wf(),
                forall|m: int| 0 <= m < k ==> self@[m].name != name@,
            decreases n - k,
        {
            if self.stores[k].name == *name {
                proof {
                    assert forall|i: int, j: int|
                        0 <= i < j < self@.len() implies self@[i].name != self@[j].name by {
                        assert(self@[i] == old(self)@[i]);
                        assert(self@[j] == old(self)@[j]);
                        assert(old(self).wf());
                    }
                    assert(self@[k as int].name == name@);
                }
                return k;
            }
            k = k + 1;
        }
        let st = SegmentStore::new(name.clone());
        self.stores.push(st);
        proof {
            assert(self@ =~= old(self)@.push(store_model(st)));
        }
        n
    }

    /// Removes the store at a position, to work on it; `put_store` returns
    /// it.
    pub(crate) fn take_store(&mut self, idx: usize) -> (st: SegmentStore)
        requires
            idx < old(self)@.len(),
        ensures
            final(self)@ == old(self)@.remove(idx as int),
            store_model(st) == old(self)@[idx as int],
    {
        let st = self.stores.remove(idx);
        proof {
            assert(self@ =~= old(self)@.remove(idx as int));
        }
        st
    }

    /// Returns a store taken with `take_store` to its position.
    pub(crate) fn put_store(&mut self, idx: usize, st: SegmentStore)
        requires
            idx <= old(self)@.len(),
        ensures
            final(self)@ == old(self)@.insert(idx as int, store_model(st)),
    {
        self.stores.insert(idx, st);
        proof {
            assert(self@ =~= old(self)@.insert(idx as int, store_model(st)));
        }
    }
}

/// Combining non-conflicting fragments is associative: two fragments that
/// merge on the way to a successful left-to-right combination also merge
/// right-to-left, to the same result. Together with commutativity, the
/// atoms of a message may be merged in any order.
pub proof fn lemma_builder_combine_associative(
    a: InsertModelBuilderView,
    b: InsertModelBuilderView,
    c: InsertModelBuilderView,
    ab: InsertModelBuilderView,
    abc: InsertModelBuilderView,
)
    requires
        builder_combine(a, b) == Ok::<InsertModelBuilderView, Error>(ab),
        builder_combine(ab, c) == Ok::<InsertModelBuilderView, Error>(abc),
    ensures
        builder_combine(b, c) is Ok,
        forall|bc: InsertModelBuilderView|
            builder_combine(b, c) == Ok::<InsertModelBuilderView, Error>(bc) ==> builder_combine(
                a,
                bc,
            ) == Ok::<InsertModelBuilderView, Error>(abc),
{
}

/// Combining a message fragment with a non-message fragment fails with
/// `TypeMismatch`, in either order.
pub proof fn lemma_builder_combine_mismatch(a: InsertModelBuilderView, b: InsertModelBuilderView)
    requires
        a is IMessage <==> b is INonMessage,
    ensures
        builder_combine(a, b) == Err::<InsertModelBuilderView, Error>(Error::TypeMismatch),
        builder_combine(b, a) == Err::<InsertModelBuilderView, Error>(Error::TypeMismatch),
{
}

} // verus!
