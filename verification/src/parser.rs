//! The labeled syntax tree of a Musica script and the rule-polymorphic walk
//! that extracts segments from it.
//!
//! Every rule kind of the grammar has exactly one handler. Handlers fall into
//! four categories: silent rules do nothing; direct non-message rules
//! finalize and persist one non-message segment; message containers merge the
//! fragments of their children and, at the root-level message rule, finalize
//! and persist one message segment; message atoms hand back a single-field
//! fragment.

use vstd::prelude::*;
use vstd::seq_lib::group_seq_properties;

use crate::errors::Error;
use crate::storage::IMessageModelBuilder;
use crate::storage::IMessageModelBuilderView;
use crate::storage::INonMessageModelView;
use crate::storage::InsertModel;
use crate::storage::InsertModelBuilder;
use crate::storage::InsertModelBuilderView;
use crate::storage::InsertModelView;
use crate::storage::SegmentStore;
use crate::storage::StoreModel;
use crate::storage::StoreRegistry;
use crate::storage::builder_combine;
use crate::storage::has_store;
use crate::storage::message_build;
use crate::storage::message_combine;
use crate::storage::non_message_build;
use crate::storage::store_index;
use crate::storage::store_model;

verus! {

broadcast use group_seq_properties;

/// The rule kinds of the Musica grammar, as they label syntax tree nodes.
#[allow(non_camel_case_types)]
#[derive(Clone, Copy, Debug, PartialEq, Eq, Structural)]
pub enum Rule {
    EOI,
    ASCII_PRINTABLE,
    CJ_CHARACTERS,
    CJ_PUNCTUATION,
    CJ_HALF_FULL_WIDTH,
    CJ_SEPARATOR,
    CJ_LEFT_CORNER_BRACKET,
    CJ_RIGHT_CORNER_BRACKET,
    CJ_PUNCTUATION_WITHOUT_CORNER_BRACKET,
    MUSICA_COMMAND,
    MUSICA_PREPROC,
    MUSICA_COMMENT,
    IMusicaScript,
    IComment,
    IInclude,
    INonMessage,
    IMessage,
    IMessageNamed,
    IMessageUnnamed,
    MessageNumber,
    MessageSpeakerName,
    MessageSpeakerTachie,
    MessageContentQuoted,
    MessageContentUnquoted,
    Musica,
}

/// Structural and lexical rules whose handler does nothing.
pub open spec fn is_silent_rule(r: Rule) -> bool {
    match r {
        Rule::EOI => true,
        Rule::ASCII_PRINTABLE => true,
        Rule::CJ_CHARACTERS => true,
        Rule::CJ_PUNCTUATION => true,
        Rule::CJ_HALF_FULL_WIDTH => true,
        Rule::CJ_SEPARATOR => true,
        Rule::CJ_LEFT_CORNER_BRACKET => true,
        Rule::CJ_RIGHT_CORNER_BRACKET => true,
        Rule::CJ_PUNCTUATION_WITHOUT_CORNER_BRACKET => true,
        Rule::MUSICA_COMMAND => true,
        Rule::MUSICA_PREPROC => true,
        Rule::MUSICA_COMMENT => true,
        Rule::IMusicaScript => true,
        _ => false,
    }
}

/// Rules whose handler persists one non-message segment from the node's text.
pub open spec fn is_direct_non_message_rule(r: Rule) -> bool {
    match r {
        Rule::IComment => true,
        Rule::IInclude => true,
        Rule::INonMessage => true,
        _ => false,
    }
}

/// One node of the syntax tree: a rule tag, the text span the rule matched,
/// and the child nodes in document order.
#[derive(Debug)]
pub struct SyntaxNode {
    pub rule: Rule,
    pub text: String,
    pub children: Vec<SyntaxNode>,
}

/// Mathematical model of a syntax tree node.
pub ghost struct SyntaxNodeView {
    pub rule: Rule,
    pub text: Seq<char>,
    pub children: Seq<SyntaxNodeView>,
}

pub open spec fn node_view(n: SyntaxNode) -> SyntaxNodeView
    decreases n,
{
    SyntaxNodeView { rule: n.rule, text: n.text@, children: node_views(n.children@) }
}

pub open spec fn node_views(s: Seq<SyntaxNode>) -> Seq<SyntaxNodeView>
    decreases s,
{
    if s.len() == 0 {
        Seq::empty()
    } else {
        node_views(s.drop_last()).push(node_view(s.last()))
    }
}

impl View for SyntaxNode {
    type V = SyntaxNodeView;

    open spec fn view(&self) -> SyntaxNodeView {
        node_view(*self)
    }
}

/// The views of a node sequence are the nodes' views, elementwise.
pub proof fn lemma_node_views(s: Seq<SyntaxNode>)
    ensures
        node_views(s).len() == s.len(),
        forall|i: int| 0 <= i < s.len() ==> node_views(s)[i] == node_view(s[i]),
    decreases s,
{
    if s.len() > 0 {
        lemma_node_views(s.drop_last());
        assert forall|i: int| 0 <= i < s.len() implies node_views(s)[i] == node_view(s[i]) by {
            if i < s.len() - 1 {
                assert(s.drop_last()[i] == s[i]);
            }
        }
    }
}

/// The number of nodes in a tree, the measure of the recursive walk.
pub open spec fn node_size(n: SyntaxNodeView) -> nat
    decreases n,
{
    1 + subtree_sizes(n.children)
}

pub open spec fn subtree_sizes(s: Seq<SyntaxNodeView>) -> nat
    decreases s,
{
    if s.len() == 0 {
        0nat
    } else {
        node_size(s[0]) + subtree_sizes(s.drop_first())
    }
}

/// A sequence of trees holds at least one node per tree.
pub proof fn lemma_subtree_sizes_len(s: Seq<SyntaxNodeView>)
    ensures
        subtree_sizes(s) >= s.len(),
    decreases s,
{
    if s.len() > 0 {
        lemma_subtree_sizes_len(s.drop_first());
        assert(node_size(s[0]) >= 1);
    }
}

/// Each tree of a sequence, together with its position, is bounded by the
/// sequence's total size.
pub proof fn lemma_subtree_sizes_at(s: Seq<SyntaxNodeView>, i: int)
    requires
        0 <= i < s.len(),
    ensures
        subtree_sizes(s) >= i + node_size(s[i]),
    decreases s,
{
    if i > 0 {
        lemma_subtree_sizes_at(s.drop_first(), i - 1);
        assert(s.drop_first()[i - 1] == s[i]);
        assert(node_size(s[0]) >= 1);
    } else {
        lemma_subtree_sizes_len(s.drop_first());
    }
}

/// Sizes add up over concatenation.
pub proof fn lemma_subtree_sizes_concat(a: Seq<SyntaxNodeView>, b: Seq<SyntaxNodeView>)
    ensures
        subtree_sizes(a + b) == subtree_sizes(a) + subtree_sizes(b),
    decreases a,
{
    if a.len() == 0 {
        assert(a + b =~= b);
    } else {
        assert((a + b)[0] == a[0]);
        assert((a + b).drop_first() =~= a.drop_first() + b);
        lemma_subtree_sizes_concat(a.drop_first(), b);
    }
}

/// A single tree's sequence weighs the tree.
pub proof fn lemma_subtree_sizes_single(n: SyntaxNodeView)
    ensures
        subtree_sizes(seq![n]) == node_size(n),
{
    assert(seq![n][0] == n);
    assert(seq![n].drop_first() =~= Seq::<SyntaxNodeView>::empty());
    assert(subtree_sizes(Seq::<SyntaxNodeView>::empty()) == 0);
}

/// What one walk step leaves behind: the segments persisted, in order, and
/// the handler's outcome.
pub ghost struct WalkOutcome {
    pub emitted: Seq<InsertModelView>,
    pub result: Result<Option<InsertModelBuilderView>, Error>,
}

/// What handling one node at the given line yields.
///
/// Persisted segments stay persisted even when a later sibling fails: the
/// emitted sequence of a failing walk holds everything inserted before the
/// failure.
pub open spec fn walk(n: SyntaxNodeView, line: int) -> WalkOutcome
    decreases n, 1int,
{
    match n.rule {
        Rule::IComment | Rule::IInclude | Rule::INonMessage => WalkOutcome {
            emitted: seq![
                InsertModelView::INonMessage(INonMessageModelView { line: line, content: n.text }),
            ],
            result: Ok(Option::None),
        },
        Rule::MessageNumber => match crate::grammar::i32_of_digits(n.text) {
            Option::Some(v) => WalkOutcome {
                emitted: Seq::empty(),
                result: Ok(
                    Option::Some(
                        InsertModelBuilderView::IMessage(
                            IMessageModelBuilderView {
                                line: Option::None,
                                id: Option::Some(v as int),
                                name: Option::None,
                                tachie: Option::None,
                                content: Option::None,
                            },
                        ),
                    ),
                ),
            },
            Option::None => WalkOutcome { emitted: Seq::empty(), result: Err(Error::ParseError) },
        },
        Rule::MessageSpeakerName => WalkOutcome {
            emitted: Seq::empty(),
            result: Ok(
                Option::Some(
                    InsertModelBuilderView::IMessage(
                        IMessageModelBuilderView {
                            line: Option::None,
                            id: Option::None,
                            name: Option::Some(n.text),
                            tachie: Option::None,
                            content: Option::None,
                        },
                    ),
                ),
            ),
        },
        Rule::MessageSpeakerTachie => WalkOutcome {
            emitted: Seq::empty(),
            result: Ok(
                Option::Some(
                    InsertModelBuilderView::IMessage(
                        IMessageModelBuilderView {
                            line: Option::None,
                            id: Option::None,
                            name: Option::None,
                            tachie: Option::Some(n.text),
                            content: Option::None,
                        },
                    ),
                ),
            ),
        },
        Rule::MessageContentQuoted | Rule::MessageContentUnquoted => WalkOutcome {
            emitted: Seq::empty(),
            result: Ok(
                Option::Some(
                    InsertModelBuilderView::IMessage(
                        IMessageModelBuilderView {
                            line: Option::None,
                            id: Option::None,
                            name: Option::None,
                            tachie: Option::None,
                            content: Option::Some(n.text),
                        },
                    ),
                ),
            ),
        },
        Rule::IMessageNamed | Rule::IMessageUnnamed => {
            let start = IMessageModelBuilderView {
                line: Option::Some(line),
                id: Option::None,
                name: Option::None,
                tachie: Option::None,
                content: Option::None,
            };
            let o = walk_fragments(n.children, line, start);
            WalkOutcome {
                emitted: o.0,
                result: match o.1 {
                    Ok(b) => Ok(Option::Some(InsertModelBuilderView::IMessage(b))),
                    Err(e) => Err(e),
                },
            }
        },
        Rule::IMessage => {
            if n.children.len() == 0 {
                WalkOutcome { emitted: Seq::empty(), result: Ok(Option::None) }
            } else {
                let head = walk(n.children[0], line);
                match head.result {
                    Err(e) => WalkOutcome { emitted: head.emitted, result: Err(e) },
                    Ok(Option::None) => WalkOutcome {
                        emitted: head.emitted,
                        result: Err(Error::ParseError),
                    },
                    Ok(Option::Some(InsertModelBuilderView::INonMessage(_))) => WalkOutcome {
                        emitted: head.emitted,
                        result: Err(Error::TypeMismatch),
                    },
                    Ok(Option::Some(InsertModelBuilderView::IMessage(b))) => {
                        match message_build(b) {
                            Err(e) => WalkOutcome { emitted: head.emitted, result: Err(e) },
                            Ok(m) => WalkOutcome {
                                emitted: head.emitted.push(InsertModelView::IMessage(m)),
                                result: Ok(Option::None),
                            },
                        }
                    },
                }
            }
        },
        Rule::Musica => {
            let o = walk_top(n.children, line);
            WalkOutcome {
                emitted: o.0,
                result: match o.1 {
                    Ok(_) => Ok(Option::None),
                    Err(e) => Err(e),
                },
            }
        },
        _ => WalkOutcome { emitted: Seq::empty(), result: Ok(Option::None) },
    }
}

/// The walk of a message container's children: each child must hand back a
/// message fragment, merged left to right into the accumulator. A child that
/// hands back nothing fails the walk; a non-message fragment is a variant
/// mismatch.
pub open spec fn walk_fragments(
    s: Seq<SyntaxNodeView>,
    line: int,
    acc: IMessageModelBuilderView,
) -> (Seq<InsertModelView>, Result<IMessageModelBuilderView, Error>)
    decreases s, 0int,
{
    if s.len() == 0 {
        (Seq::empty(), Ok(acc))
    } else {
        let head = walk(s[0], line);
        match head.result {
            Err(e) => (head.emitted, Err(e)),
            Ok(Option::None) => (head.emitted, Err(Error::ParseError)),
            Ok(Option::Some(InsertModelBuilderView::INonMessage(_))) => (
                head.emitted,
                Err(Error::TypeMismatch),
            ),
            Ok(Option::Some(InsertModelBuilderView::IMessage(fb))) => {
                match message_combine(acc, fb) {
                    Err(e) => (head.emitted, Err(e)),
                    Ok(acc2) => {
                        let rest = walk_fragments(s.drop_first(), line, acc2);
                        (head.emitted + rest.0, rest.1)
                    },
                }
            },
        }
    }
}

/// The top-level walk: the children of the root are visited in document
/// order, and the line counter increments by exactly one after each child,
/// whatever the child emitted. A child's returned fragment is discarded.
pub open spec fn walk_top(s: Seq<SyntaxNodeView>, line: int) -> (
    Seq<InsertModelView>,
    Result<(), Error>,
)
    decreases s, 0int,
{
    if s.len() == 0 {
        (Seq::empty(), Ok(()))
    } else {
        let head = walk(s[0], line);
        match head.result {
            Err(e) => (head.emitted, Err(e)),
            Ok(_) => {
                let rest = walk_top(s.drop_first(), line + 1);
                (head.emitted + rest.0, rest.1)
            },
        }
    }
}

/// The shape of a message atom node as the grammar emits it: one of the
/// four atom rules, a number atom holding a value in the id's range.
pub open spec fn is_message_atom(n: SyntaxNodeView) -> bool {
    match n.rule {
        Rule::MessageNumber => crate::grammar::i32_of_digits(n.text) is Some,
        Rule::MessageSpeakerName => true,
        Rule::MessageSpeakerTachie => true,
        Rule::MessageContentQuoted => true,
        Rule::MessageContentUnquoted => true,
        _ => false,
    }
}

/// Folding message atoms never fails with `ParseError`: every atom hands
/// back a message fragment, so the fold can only succeed or meet a merge
/// conflict.
pub proof fn lemma_walk_fragments_atoms(
    s: Seq<SyntaxNodeView>,
    line: int,
    acc: IMessageModelBuilderView,
)
    requires
        forall|i: int| 0 <= i < s.len() ==> is_message_atom(#[trigger] s[i]),
    ensures
        walk_fragments(s, line, acc).1 != Err::<IMessageModelBuilderView, Error>(
            Error::ParseError,
        ),
        walk_fragments(s, line, acc).1 != Err::<IMessageModelBuilderView, Error>(
            Error::TypeMismatch,
        ),
    decreases s,
{
    if s.len() > 0 {
        assert(is_message_atom(s[0]));
        let head = walk(s[0], line);
        match head.result {
            Ok(Option::Some(InsertModelBuilderView::IMessage(fb))) => {
                match message_combine(acc, fb) {
                    Ok(acc2) => {
                        assert(forall|i: int|
                            0 <= i < s.drop_first().len() ==> is_message_atom(
                                #[trigger] s.drop_first()[i],
                            ));
                        lemma_walk_fragments_atoms(s.drop_first(), line, acc2);
                    },
                    Err(_) => {},
                }
            },
            _ => {},
        }
    }
}

/// The model of a handler's returned fragment.
pub open spec fn fragment_view(r: Result<Option<InsertModelBuilder>, Error>) -> Result<
    Option<InsertModelBuilderView>,
    Error,
> {
    match r {
        Ok(Option::Some(b)) => Ok(Option::Some(b@)),
        Ok(Option::None) => Ok(Option::None),
        Err(e) => Err(e),
    }
}

/// Handles one syntax tree node at the given line: the rule-polymorphic
/// dispatch of the extractor. Persists segments into `store` exactly as the
/// walk model says, and hands back the model's fragment. The caller bounds
/// the line number by the tree's node count, so that the top-level line
/// counter cannot overflow.
pub fn handle_node(node: &SyntaxNode, line: i32, store: &mut SegmentStore) -> (r: Result<
    Option<InsertModelBuilder>,
    Error,
>)
    requires
        old(store).provisioned(),
        line + node_size(node@) <= i32::MAX,
    ensures
        final(store).provisioned(),
        final(store).name_view() == old(store).name_view(),
        final(store)@ == old(store)@ + walk(node@, line as int).emitted,
        fragment_view(r) == walk(node@, line as int).result,
    decreases node_size(node@),
{
    match node.rule {
        Rule::IComment | Rule::IInclude | Rule::INonMessage => {
            proof {
                assert(is_direct_non_message_rule(node.rule));
            }
            let b = InsertModelBuilder::new_non_message().line(line).content(node.text.clone());
            match b.build() {
                Err(e) => {
                    proof {
                        assert(non_message_build(b@) is Ok);
                        assert(false);
                    }
                    Err(e)
                },
                Ok(m) => {
                    store.insert(InsertModel::INonMessage(m));
                    proof {
                        assert(store@ =~= old(store)@ + walk(node@, line as int).emitted);
                    }
                    Ok(Option::None)
                },
            }
        },
        Rule::MessageNumber => {
            match crate::grammar::parse_i32(node.text.as_str()) {
                Ok(v) => Ok(
                    Option::Some(
                        InsertModelBuilder::IMessage(InsertModelBuilder::new_message().id(v)),
                    ),
                ),
                Err(e) => Err(e),
            }
        },
        Rule::MessageSpeakerName => Ok(
            Option::Some(
                InsertModelBuilder::IMessage(
                    InsertModelBuilder::new_message().name(node.text.clone()),
                ),
            ),
        ),
        Rule::MessageSpeakerTachie => Ok(
            Option::Some(
                InsertModelBuilder::IMessage(
                    InsertModelBuilder::new_message().tachie(node.text.clone()),
                ),
            ),
        ),
        Rule::MessageContentQuoted | Rule::MessageContentUnquoted => Ok(
            Option::Some(
                InsertModelBuilder::IMessage(
                    InsertModelBuilder::new_message().content(node.text.clone()),
                ),
            ),
        ),
        Rule::IMessageNamed | Rule::IMessageUnnamed => {
            let mut builder = InsertModelBuilder::new_message().line(line);
            let ghost mut emitted: Seq<InsertModelView> = Seq::empty();
            let nchild = node.children.len();
            let mut k: usize = 0;
            proof {
                lemma_node_views(node.children@);
            }
            while k < nchild
                invariant
                    0 <= k <= nchild,
                    nchild == node.children@.len(),
                    node@.children.len() == nchild,
                    line + node_size(node@) <= i32::MAX,
                    node@ == node_view(*node),
                    node@.rule == Rule::IMessageNamed || node@.rule == Rule::IMessageUnnamed,
                    old(store).provisioned(),
                    store.provisioned(),
                    store.name_view() == old(store).name_view(),
                    store@ == old(store)@ + emitted,
                    ({
                        let rest = walk_fragments(
                            node@.children.skip(k as int),
                            line as int,
                            builder@,
                        );
                        walk(node@, line as int).emitted == emitted + rest.0 && walk(
                            node@,
                            line as int,
                        ).result == (match rest.1 {
                            Ok(b) => Ok::<Option<InsertModelBuilderView>, Error>(
                                Option::Some(InsertModelBuilderView::IMessage(b)),
                            ),
                            Err(e) => Err::<Option<InsertModelBuilderView>, Error>(e),
                        })
                    }),
                decreases nchild - k,
            {
                let ghost rem = node@.children.skip(k as int);
                let ghost emitted0 = emitted;
                let ghost builder0 = builder@;
                proof {
                    lemma_node_views(node.children@);
                    lemma_subtree_sizes_at(node@.children, k as int);
                    assert(rem[0] == node@.children[k as int]);
                    assert(rem.drop_first() =~= node@.children.skip(k as int + 1));
                }
                let child = &node.children[k];
                proof {
                    assert(child@ == node@.children[k as int]);
                    assert(node_size(child@) < node_size(node@));
                }
                let ghost head = walk(child@, line as int);
                let r0 = handle_node(child, line, store);
                proof {
                    emitted = emitted + head.emitted;
                    assert(store@ =~= old(store)@ + emitted);
                    assert(rem[0] == child@);
                }
                match r0 {
                    Err(e) => {
                        proof {
                            assert(walk_fragments(rem, line as int, builder0) == (
                                head.emitted,
                                Err::<IMessageModelBuilderView, Error>(e),
                            ));
                            assert(emitted0 + head.emitted =~= emitted);
                        }
                        return Err(e);
                    },
                    Ok(Option::None) => {
                        proof {
                            assert(walk_fragments(rem, line as int, builder0) == (
                                head.emitted,
                                Err::<IMessageModelBuilderView, Error>(Error::ParseError),
                            ));
                            assert(emitted0 + head.emitted =~= emitted);
                        }
                        return Err(Error::ParseError);
                    },
                    Ok(Option::Some(frag)) => {
                        let combined = builder.combine(frag);
                        match combined {
                            Err(e) => {
                                proof {
                                    assert(builder_combine(
                                        InsertModelBuilderView::IMessage(builder0),
                                        frag@,
                                    ) == Err::<InsertModelBuilderView, Error>(e));
                                    assert(walk_fragments(rem, line as int, builder0) == (
                                        head.emitted,
                                        Err::<IMessageModelBuilderView, Error>(e),
                                    ));
                                    assert(emitted0 + head.emitted =~= emitted);
                                }
                                return Err(e);
                            },
                            Ok(nb) => {
                                proof {
                                    assert(builder_combine(
                                        InsertModelBuilderView::IMessage(builder0),
                                        frag@,
                                    ) == Ok::<InsertModelBuilderView, Error>(
                                        InsertModelBuilderView::IMessage(nb@),
                                    ));
                                    assert(head.result == Ok::<
                                        Option<InsertModelBuilderView>,
                                        Error,
                                    >(Option::Some(frag@)));
                                    let rest = walk_fragments(rem, line as int, builder0);
                                    let rest2 = walk_fragments(
                                        rem.drop_first(),
                                        line as int,
                                        nb@,
                                    );
                                    assert(rest.0 == head.emitted + rest2.0 && rest.1
                                        == rest2.1);
                                    assert(emitted0 + (head.emitted + rest2.0) =~= emitted
                                        + rest2.0);
                                }
                                builder = nb;
                            },
                        }
                    },
                }
                k = k + 1;
            }
            proof {
                assert(node@.children.skip(nchild as int) =~= Seq::<SyntaxNodeView>::empty());
                assert(walk(node@, line as int).emitted =~= emitted);
                assert(store@ =~= old(store)@ + walk(node@, line as int).emitted);
            }
            Ok(Option::Some(InsertModelBuilder::IMessage(builder)))
        },
        Rule::IMessage => {
            if node.children.len() == 0 {
                proof {
                    assert(store@ =~= old(store)@ + walk(node@, line as int).emitted);
                }
                Ok(Option::None)
            } else {
                proof {
                    lemma_node_views(node.children@);
                    lemma_subtree_sizes_at(node@.children, 0);
                }
                let child = &node.children[0];
                proof {
                    assert(child@ == node@.children[0]);
                    assert(node_size(child@) < node_size(node@));
                }
                let r0 = handle_node(child, line, store);
                match r0 {
                    Err(e) => Err(e),
                    Ok(Option::None) => Err(Error::ParseError),
                    Ok(Option::Some(InsertModelBuilder::INonMessage(_))) => Err(
                        Error::TypeMismatch,
                    ),
                    Ok(Option::Some(InsertModelBuilder::IMessage(b))) => {
                        match b.build() {
                            Err(e) => Err(e),
                            Ok(m) => {
                                store.insert(InsertModel::IMessage(m));
                                proof {
                                    assert(store@ =~= old(store)@ + walk(
                                        node@,
                                        line as int,
                                    ).emitted);
                                }
                                Ok(Option::None)
                            },
                        }
                    },
                }
            }
        },
        Rule::Musica => {
            let ghost mut emitted: Seq<InsertModelView> = Seq::empty();
            let nchild = node.children.len();
            let mut cur: i32 = line;
            let mut k: usize = 0;
            proof {
                lemma_node_views(node.children@);
                lemma_subtree_sizes_len(node@.children);
                assert(nchild <= subtree_sizes(node@.children));
                assert(node_size(node@) == 1 + subtree_sizes(node@.children));
            }
            while k < nchild
                invariant
                    0 <= k <= nchild,
                    nchild == node.children@.len(),
                    node@.children.len() == nchild,
                    line + node_size(node@) <= i32::MAX,
                    nchild < node_size(node@),
                    node@ == node_view(*node),
                    node@.rule == Rule::Musica,
                    cur as int == line as int + k as int,
                    old(store).provisioned(),
                    store.provisioned(),
                    store.name_view() == old(store).name_view(),
                    store@ == old(store)@ + emitted,
                    ({
                        let rest = walk_top(node@.children.skip(k as int), cur as int);
                        walk(node@, line as int).emitted == emitted + rest.0 && walk(
                            node@,
                            line as int,
                        ).result == (match rest.1 {
                            Ok(_) => Ok::<Option<InsertModelBuilderView>, Error>(Option::None),
                            Err(e) => Err::<Option<InsertModelBuilderView>, Error>(e),
                        })
                    }),
                decreases nchild - k,
            {
                let ghost rem = node@.children.skip(k as int);
                let ghost emitted0 = emitted;
                proof {
                    lemma_node_views(node.children@);
                    lemma_subtree_sizes_at(node@.children, k as int);
                    assert(rem[0] == node@.children[k as int]);
                    assert(rem.drop_first() =~= node@.children.skip(k as int + 1));
                    assert(node_size(node@) == 1 + subtree_sizes(node@.children));
                }
                let child = &node.children[k];
                proof {
                    assert(child@ == node@.children[k as int]);
                    assert(node_size(child@) < node_size(node@));
                    assert(cur + node_size(child@) <= i32::MAX);
                }
                let ghost head = walk(child@, cur as int);
                let r0 = handle_node(child, cur, store);
                proof {
                    emitted = emitted + head.emitted;
                    assert(store@ =~= old(store)@ + emitted);
                    assert(rem[0] == child@);
                }
                match r0 {
                    Err(e) => {
                        proof {
                            assert(walk_top(rem, cur as int) == (
                                head.emitted,
                                Err::<(), Error>(e),
                            ));
                            assert(emitted0 + head.emitted =~= emitted);
                        }
                        return Err(e);
                    },
                    Ok(_) => {},
                }
                proof {
                    let rest = walk_top(rem, cur as int);
                    let rest2 = walk_top(rem.drop_first(), cur as int + 1);
                    assert(rest.0 == head.emitted + rest2.0 && rest.1 == rest2.1);
                    assert(emitted0 + (head.emitted + rest2.0) =~= emitted + rest2.0);
                }
                cur = cur + 1;
                k = k + 1;
            }
            proof {
                assert(node@.children.skip(nchild as int) =~= Seq::<SyntaxNodeView>::empty());
                assert(walk(node@, line as int).emitted =~= emitted);
                assert(store@ =~= old(store)@ + walk(node@, line as int).emitted);
            }
            Ok(Option::None)
        },
        _ => {
            proof {
                assert(is_silent_rule(node.rule));
                assert(store@ =~= old(store)@ + walk(node@, line as int).emitted);
            }
            Ok(Option::None)
        },
    }
}


/// What extracting one script text yields: the segments persisted, in
/// order, and the outcome reported for the file. A rejected text persists
/// nothing; a walk that fails midway keeps what was persisted before the
/// failure.
pub ghost struct ExtractOutcome {
    pub emitted: Seq<InsertModelView>,
    pub result: Result<(), Error>,
}

pub open spec fn extract(content: Seq<char>) -> ExtractOutcome {
    match crate::grammar::parse_spec(content) {
        Err(e) => ExtractOutcome { emitted: Seq::empty(), result: Err(e) },
        Ok(t) => {
            let o = walk(t, 0);
            ExtractOutcome {
                emitted: o.emitted,
                result: match o.result {
                    Ok(_) => Ok(()),
                    Err(e) => Err(e),
                },
            }
        },
    }
}

/// The grammar engine: turns raw script text into a labeled syntax tree.
pub struct MusicaParser;

impl MusicaParser {
    /// Parses raw script text into its syntax tree, or rejects it.
    pub fn parse(content: &str) -> (r: Result<SyntaxNode, Error>)
        requires
            content@.len() < usize::MAX,
        ensures
            match r {
                Ok(t) => crate::grammar::parse_spec(content@) == Ok::<SyntaxNodeView, Error>(t@),
                Err(e) => crate::grammar::parse_spec(content@) == Err::<SyntaxNodeView, Error>(e),
            },
    {
        crate::grammar::parse_text(content)
    }
}

/// Extracts the segments of one script text into the store registered for
/// `name`, opening and provisioning that store first. Segments persisted
/// before a failure stay persisted; the registry keeps every other store
/// unchanged. The text must be small enough that the top-level line counter
/// cannot overflow; a parsed line never yields more than six tree nodes.
pub fn parse_content(registry: &mut StoreRegistry, name: &String, content: &str) -> (r: Result<
    (),
    Error,
>)
    requires
        old(registry).wf(),
        6 * content@.len() + 8 <= i32::MAX,
    ensures
        final(registry).wf(),
        ({
            let old_v = old(registry)@;
            let o = extract(content@);
            let pre = if has_store(old_v, name@) {
                old_v[store_index(old_v, name@)].segments
            } else {
                Seq::<InsertModelView>::empty()
            };
            let nm = StoreModel { name: name@, provisioned: true, segments: pre + o.emitted };
            &&& r == o.result
            &&& has_store(old_v, name@) ==> final(registry)@ == old_v.update(
                store_index(old_v, name@),
                nm,
            )
            &&& !has_store(old_v, name@) ==> final(registry)@ == old_v.push(nm)
        }),
{
    let ghost old_v = old(registry)@;
    let idx = registry.open_or_create(name);
    proof {
        if has_store(old_v, name@) {
            let ci = store_index(old_v, name@);
            assert(0 <= ci < old_v.len() && old_v[ci].name == name@);
            assert(ci == idx) by {
                if ci < idx {
                    assert(old_v[ci].name != old_v[idx as int].name);
                } else if idx < ci {
                    assert(old_v[idx as int].name != old_v[ci].name);
                }
            }
        }
    }
    let ghost v1 = registry@;
    let mut st = registry.take_store(idx);
    st.ensure_schema();
    let ghost pre_segments = st@;
    let parsed = MusicaParser::parse(content);
    let res: Result<(), Error> = match parsed {
        Err(e) => Err(e),
        Ok(tree) => {
            proof {
                crate::grammar::lemma_parse_lines_size(content@, 0);
                assert(node_size(tree@) == 1 + subtree_sizes(tree@.children));
                assert(0 + node_size(tree@) <= i32::MAX);
            }
            match handle_node(&tree, 0, &mut st) {
                Err(e) => Err(e),
                Ok(_) => Ok(()),
            }
        },
    };
    proof {
        assert(st@ == pre_segments + extract(content@).emitted) by {
            if parsed is Err {
                assert(pre_segments + Seq::<InsertModelView>::empty() =~= pre_segments);
            }
        }
    }
    registry.put_store(idx, st);
    proof {
        let o = extract(content@);
        let pre = if has_store(old_v, name@) {
            old_v[store_index(old_v, name@)].segments
        } else {
            Seq::<InsertModelView>::empty()
        };
        let nm = StoreModel { name: name@, provisioned: true, segments: pre + o.emitted };
        assert(pre_segments == pre) by {
            if !has_store(old_v, name@) {
                assert(v1[idx as int].segments =~= Seq::<InsertModelView>::empty());
            }
        }
        assert(store_model(st) == nm);
        assert(registry@ =~= v1.update(idx as int, nm));
        if has_store(old_v, name@) {
            assert(registry@ == old_v.update(store_index(old_v, name@), nm));
        } else {
            assert(registry@ =~= old_v.push(nm));
        }
        assert(final(registry).wf()) by {
            assert forall|i: int, j: int|
                0 <= i < j < registry@.len() implies registry@[i].name != registry@[j].name by {
                assert(v1[idx as int].name == name@);
                assert(registry@[i].name == v1[i].name);
                assert(registry@[j].name == v1[j].name);
            }
        }
    }
    res
}


/// The line number a segment carries.
pub open spec fn segment_line(v: InsertModelView) -> int {
    match v {
        InsertModelView::IMessage(m) => m.line,
        InsertModelView::INonMessage(m) => m.line,
    }
}

/// A tree with no top-level rule inside: the shape of every node one line
/// yields.
pub open spec fn musica_free(n: SyntaxNodeView) -> bool
    decreases n,
{
    n.rule != Rule::Musica && (forall|i: int|
        0 <= i < n.children.len() ==> musica_free(#[trigger] n.children[i]))
}

/// Walking one line's node stamps every segment it persists with exactly
/// the line number it was handed, and any message fragment it hands back
/// carries either no line or that number.
pub proof fn lemma_walk_line_stamp(n: SyntaxNodeView, line: int)
    requires
        musica_free(n),
    ensures
        forall|m: int|
            0 <= m < walk(n, line).emitted.len() ==> segment_line(
                #[trigger] walk(n, line).emitted[m],
            ) == line,
        match walk(n, line).result {
            Ok(Option::Some(InsertModelBuilderView::IMessage(b))) => b.line is None || b.line
                == Option::Some(line),
            _ => true,
        },
    decreases n, 1int,
{
    match n.rule {
        Rule::IMessageNamed | Rule::IMessageUnnamed => {
            let start = IMessageModelBuilderView {
                line: Option::Some(line),
                id: Option::None,
                name: Option::None,
                tachie: Option::None,
                content: Option::None,
            };
            lemma_walk_fragments_line_stamp(n.children, line, start);
        },
        Rule::IMessage => {
            if n.children.len() > 0 {
                lemma_walk_line_stamp(n.children[0], line);
                let head = walk(n.children[0], line);
                match head.result {
                    Ok(Option::Some(InsertModelBuilderView::IMessage(b))) => {
                        match message_build(b) {
                            Ok(m) => {
                                assert forall|k: int|
                                    0 <= k < walk(n, line).emitted.len() implies segment_line(
                                    #[trigger] walk(n, line).emitted[k],
                                ) == line by {
                                    if k < head.emitted.len() {
                                        assert(walk(n, line).emitted[k] == head.emitted[k]);
                                    } else {
                                        assert(walk(n, line).emitted[k]
                                            == InsertModelView::IMessage(m));
                                    }
                                }
                            },
                            Err(_) => {},
                        }
                    },
                    _ => {},
                }
            }
        },
        _ => {},
    }
}

/// The fragment fold of a message container keeps the accumulator's line
/// number and stamps every persisted segment with it.
proof fn lemma_walk_fragments_line_stamp(
    s: Seq<SyntaxNodeView>,
    line: int,
    acc: IMessageModelBuilderView,
)
    requires
        forall|i: int| 0 <= i < s.len() ==> musica_free(#[trigger] s[i]),
        acc.line is None || acc.line == Option::Some(line),
    ensures
        forall|m: int|
            0 <= m < walk_fragments(s, line, acc).0.len() ==> segment_line(
                #[trigger] walk_fragments(s, line, acc).0[m],
            ) == line,
        match walk_fragments(s, line, acc).1 {
            Ok(b) => b.line is None || b.line == Option::Some(line),
            Err(_) => true,
        },
    decreases s, 2int,
{
    if s.len() > 0 {
        lemma_walk_line_stamp(s[0], line);
        let head = walk(s[0], line);
        match head.result {
            Ok(Option::Some(InsertModelBuilderView::IMessage(fb))) => {
                match message_combine(acc, fb) {
                    Ok(acc2) => {
                        assert(forall|i: int|
                            0 <= i < s.drop_first().len() ==> musica_free(
                                #[trigger] s.drop_first()[i],
                            ));
                        lemma_walk_fragments_line_stamp(s.drop_first(), line, acc2);
                        let rest = walk_fragments(s.drop_first(), line, acc2);
                        assert forall|m: int|
                            0 <= m < walk_fragments(s, line, acc).0.len() implies segment_line(
                            #[trigger] walk_fragments(s, line, acc).0[m],
                        ) == line by {
                            if m < head.emitted.len() {
                                assert(walk_fragments(s, line, acc).0[m] == head.emitted[m]);
                            } else {
                                assert(walk_fragments(s, line, acc).0[m] == rest.0[m
                                    - head.emitted.len()]);
                            }
                        }
                    },
                    Err(_) => {},
                }
            },
            _ => {},
        }
    }
}

/// The top-level line counter: the walk of the root's children hands the
/// child at position `i` the line number `line + i` — one increment per
/// child, whatever the child emitted — and the persisted segments decompose
/// around that child's, each of which carries exactly `line + i`.
pub proof fn lemma_walk_top_line_counter(s: Seq<SyntaxNodeView>, line: int, i: int)
    requires
        0 <= i < s.len(),
        forall|j: int| 0 <= j < s.len() ==> musica_free(#[trigger] s[j]),
        forall|j: int| 0 <= j < i ==> #[trigger] walk(s[j], line + j).result is Ok,
    ensures
        forall|m: int|
            0 <= m < walk(s[i], line + i).emitted.len() ==> segment_line(
                #[trigger] walk(s[i], line + i).emitted[m],
            ) == line + i,
        walk_top(s, line).0 == walk_top(s.take(i), line).0 + walk(s[i], line + i).emitted + (
        if walk(s[i], line + i).result is Ok {
            walk_top(s.skip(i + 1), line + i + 1).0
        } else {
            Seq::<InsertModelView>::empty()
        }),
    decreases i,
{
    lemma_walk_line_stamp(s[i], line + i);
    if i == 0 {
        assert(s.take(0) =~= Seq::<SyntaxNodeView>::empty());
        assert(s.skip(1) =~= s.drop_first());
        if walk(s[0], line).result is Ok {
        } else {
            assert(walk_top(s, line).0 == walk(s[0], line).emitted);
        }
    } else {
        let t = s.drop_first();
        assert(forall|j: int| 0 <= j < t.len() ==> musica_free(#[trigger] t[j]));
        assert forall|j: int| 0 <= j < i - 1 implies #[trigger] walk(
            t[j],
            (line + 1) + j,
        ).result is Ok by {
            assert(t[j] == s[j + 1]);
            assert(walk(s[j + 1], line + (j + 1)).result is Ok);
        }
        assert(t[i - 1] == s[i]);
        lemma_walk_top_line_counter(t, line + 1, i - 1);
        assert(walk(s[0], line + 0).result is Ok);
        assert(walk_top(s, line).0 == walk(s[0], line).emitted + walk_top(t, line + 1).0);
        assert(s.take(i)[0] == s[0]);
        assert(s.take(i).drop_first() =~= t.take(i - 1));
        assert(walk_top(s.take(i), line).0 == walk(s[0], line).emitted + walk_top(
            t.take(i - 1),
            line + 1,
        ).0);
        assert(t.skip(i) =~= s.skip(i + 1));
    }
}


/// For a successfully parsed script walked from line zero, the top-level
/// child at position `i` is handled at line number `i`, and every segment
/// it persists carries exactly that number — however many segments the
/// children before it yielded.
pub proof fn lemma_extract_line_numbers(content: Seq<char>, t: SyntaxNodeView, i: int)
    requires
        crate::grammar::parse_spec(content) == Ok::<SyntaxNodeView, Error>(t),
        0 <= i < t.children.len(),
        forall|j: int| 0 <= j < i ==> #[trigger] walk(t.children[j], j).result is Ok,
    ensures
        forall|m: int|
            0 <= m < walk(t.children[i], i).emitted.len() ==> segment_line(
                #[trigger] walk(t.children[i], i).emitted[m],
            ) == i,
{
    crate::grammar::lemma_parse_lines_musica_free(content, 0);
    assert forall|j: int| 0 <= j < i implies #[trigger] walk(
        t.children[j],
        0 + j,
    ).result is Ok by {
        assert(walk(t.children[j], j).result is Ok);
    }
    lemma_walk_top_line_counter(t.children, 0, i);
    assert(0 + i == i);
}


/// `ParseError` means the grammar rejected the text, and nothing else: an
/// extraction reports it exactly when parsing fails, and a rejected text
/// persists no segment. Once the grammar accepted a text, its walk can fail
/// only while finalizing or merging a builder.
pub proof fn lemma_parse_error_means_rejection(content: Seq<char>)
    ensures
        extract(content).result == Err::<(), Error>(Error::ParseError)
            <==> crate::grammar::parse_spec(content) is Err,
        crate::grammar::parse_spec(content) is Err ==> extract(content).emitted
            == Seq::<InsertModelView>::empty(),
{
    crate::grammar::lemma_parse_lines_err(content, 0);
    match crate::grammar::parse_spec(content) {
        Err(e) => {
            assert(e == Error::ParseError);
        },
        Ok(t) => {
            crate::grammar::lemma_parse_lines_walk(content, 0, 0);
            assert(t.rule == Rule::Musica);
            assert(walk(t, 0).result == (match walk_top(t.children, 0).1 {
                Ok(_) => Ok::<Option<InsertModelBuilderView>, Error>(Option::None),
                Err(e) => Err::<Option<InsertModelBuilderView>, Error>(e),
            }));
        },
    }
}

} // verus!
