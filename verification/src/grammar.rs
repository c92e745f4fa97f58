//! The Musica script grammar: a line-oriented text format turned into a
//! labeled syntax tree.
//!
//! A script is a sequence of lines separated by `'\n'`. Empty lines produce
//! no node. A line starting with `';'` is a comment; one starting with `'#'`
//! is a preprocessor directive; a line whose first token is all digits, or
//! that holds a double quote, is a message line; any other line is plain
//! non-message text. A message line is, in order: an optional all-digit id
//! token (whose value must fit the id's numeric range, or the text is
//! rejected), an optional speaker-name token, an optional `[tag]` sprite token,
//! and the content, either between the first and the last double quote or,
//! on a quoteless line, the rest of the line. Every character must be ASCII
//! printable or belong to the CJK classes the grammar admits; anything else
//! is rejected.

use vstd::prelude::*;
use vstd::string::StrSliceExecFns;

use crate::errors::Error;
use crate::parser::Rule;
use crate::parser::SyntaxNode;
use crate::parser::SyntaxNodeView;
use crate::parser::lemma_node_views;
use crate::parser::is_message_atom;
use crate::storage::IMessageModelBuilderView;
use crate::storage::InsertModelBuilderView;
use crate::parser::lemma_walk_fragments_atoms;
use crate::parser::musica_free;
use crate::parser::walk;
use crate::parser::walk_fragments;
use crate::parser::walk_top;
use crate::storage::message_build;
use crate::parser::lemma_subtree_sizes_concat;
use crate::parser::lemma_subtree_sizes_single;
use crate::parser::node_size;
use crate::parser::node_view;
use crate::parser::node_views;
use crate::parser::subtree_sizes;

verus! {

/// The characters the grammar admits inside a line: ASCII printable, CJK
/// punctuation and kana, unified ideographs, and half-/full-width forms.
pub open spec fn allowed_char(c: char) -> bool {
    let u = c as u32;
    ||| 0x20 <= u <= 0x7e
    ||| 0x3000 <= u <= 0x30ff
    ||| 0x4e00 <= u <= 0x9fff
    ||| 0xff00 <= u <= 0xffef
}

/// An ASCII decimal digit.
pub open spec fn is_digit_char(c: char) -> bool {
    0x30 <= c as u32 <= 0x39
}

/// Every character of `s` in `[lo, hi)` is admitted by the grammar.
pub open spec fn all_allowed(s: Seq<char>, lo: int, hi: int) -> bool {
    forall|m: int| lo <= m < hi ==> allowed_char(#[trigger] s[m])
}

/// Every character of `s` in `[lo, hi)` is a digit.
pub open spec fn all_digits(s: Seq<char>, lo: int, hi: int) -> bool {
    forall|m: int| lo <= m < hi ==> is_digit_char(#[trigger] s[m])
}

/// The first position of `c` in `s[lo..hi]`, or `hi` if there is none.
pub open spec fn find_char(s: Seq<char>, lo: int, hi: int, c: char) -> int
    decreases hi - lo,
{
    if lo >= hi {
        hi
    } else if s[lo] == c {
        lo
    } else {
        find_char(s, lo + 1, hi, c)
    }
}

/// The first position in `s[lo..hi]` that is not a space, or `hi`.
pub open spec fn skip_spaces(s: Seq<char>, lo: int, hi: int) -> int
    decreases hi - lo,
{
    if lo >= hi {
        hi
    } else if s[lo] == ' ' {
        skip_spaces(s, lo + 1, hi)
    } else {
        lo
    }
}

/// The last position of `c` in `s[lo..hi]`, or `lo - 1` if there is none.
pub open spec fn rfind_char(s: Seq<char>, lo: int, hi: int, c: char) -> int
    decreases hi - lo,
{
    if hi <= lo {
        lo - 1
    } else if s[hi - 1] == c {
        hi - 1
    } else {
        rfind_char(s, lo, hi - 1, c)
    }
}

/// The end of `s[lo..hi]` with trailing spaces dropped.
pub open spec fn rskip_spaces(s: Seq<char>, lo: int, hi: int) -> int
    decreases hi - lo,
{
    if hi <= lo {
        lo
    } else if s[hi - 1] == ' ' {
        rskip_spaces(s, lo, hi - 1)
    } else {
        hi
    }
}

pub proof fn lemma_find_char(s: Seq<char>, lo: int, hi: int, c: char)
    requires
        lo <= hi,
    ensures
        lo <= find_char(s, lo, hi, c) <= hi,
        find_char(s, lo, hi, c) < hi ==> s[find_char(s, lo, hi, c)] == c,
        forall|m: int| lo <= m < find_char(s, lo, hi, c) ==> s[m] != c,
    decreases hi - lo,
{
    if lo < hi && s[lo] != c {
        lemma_find_char(s, lo + 1, hi, c);
    }
}

pub proof fn lemma_rfind_char(s: Seq<char>, lo: int, hi: int, c: char)
    requires
        lo <= hi,
    ensures
        lo - 1 <= rfind_char(s, lo, hi, c) < hi,
        rfind_char(s, lo, hi, c) >= lo ==> s[rfind_char(s, lo, hi, c)] == c,
        forall|m: int| rfind_char(s, lo, hi, c) < m < hi ==> s[m] != c,
        (exists|m: int| lo <= m < hi && s[m] == c) ==> rfind_char(s, lo, hi, c) >= lo,
    decreases hi - lo,
{
    if lo < hi && s[hi - 1] != c {
        lemma_rfind_char(s, lo, hi - 1, c);
        if exists|m: int| lo <= m < hi && s[m] == c {
            let w = choose|m: int| lo <= m < hi && s[m] == c;
            assert(lo <= w < hi - 1 && s[w] == c);
        }
    }
}

/// The numeric value of the digits of `s[lo..hi]`, most significant first.
pub open spec fn digits_val(s: Seq<char>, lo: int, hi: int) -> int
    decreases hi - lo,
{
    if hi <= lo {
        0
    } else {
        digits_val(s, lo, hi - 1) * 10 + (s[hi - 1] as u32 - 0x30)
    }
}

pub proof fn lemma_digits_val_nonneg(s: Seq<char>, lo: int, hi: int)
    requires
        all_digits(s, lo, hi),
    ensures
        digits_val(s, lo, hi) >= 0,
    decreases hi - lo,
{
    if hi > lo {
        lemma_digits_val_nonneg(s, lo, hi - 1);
    }
}

/// Reading more digits never shrinks the value.
pub proof fn lemma_digits_val_mono(s: Seq<char>, lo: int, mid: int, hi: int)
    requires
        lo <= mid <= hi,
        all_digits(s, lo, hi),
    ensures
        digits_val(s, lo, hi) >= digits_val(s, lo, mid),
    decreases hi - mid,
{
    if mid < hi {
        lemma_digits_val_mono(s, lo, mid, hi - 1);
        lemma_digits_val_nonneg(s, lo, hi - 1);
    }
}

/// The numeric message id a digit-only text denotes, when it has one: the
/// text must be nonempty, all digits, and its value must fit an `i32`.
pub open spec fn i32_of_digits(s: Seq<char>) -> Option<i32> {
    if s.len() > 0 && all_digits(s, 0, s.len() as int) && digits_val(s, 0, s.len() as int)
        <= 0x7fff_ffff {
        Option::Some(digits_val(s, 0, s.len() as int) as i32)
    } else {
        Option::None
    }
}

/// Reads a nonnegative decimal number from a node's text.
pub fn parse_i32(text: &str) -> (r: Result<i32, Error>)
    ensures
        match i32_of_digits(text@) {
            Option::Some(v) => r == Ok::<i32, Error>(v),
            Option::None => r == Err::<i32, Error>(Error::ParseError),
        },
{
    let chars = str_to_chars(text);
    let n = chars.len();
    if n == 0 {
        return Err(Error::ParseError);
    }
    let mut acc: i32 = 0;
    let mut k: usize = 0;
    while k < n
        invariant
            0 <= k <= n,
            n == text@.len(),
            chars@ == text@,
            all_digits(text@, 0, k as int),
            acc == digits_val(text@, 0, k as int),
            0 <= acc <= 0x7fff_ffff,
        decreases n - k,
    {
        let u = chars[k] as u32;
        if u < 0x30 || u > 0x39 {
            assert(!all_digits(text@, 0, n as int));
            return Err(Error::ParseError);
        }
        let d = (u - 0x30) as i32;
        if acc > (0x7fff_ffff - d) / 10 {
            proof {
                assert(digits_val(text@, 0, k + 1) == acc * 10 + d);
                assert(acc * 10 + d > 0x7fff_ffff) by (nonlinear_arith)
                    requires
                        acc > (0x7fff_ffff - d) / 10,
                        0 <= d <= 9,
                        acc >= 0,
                ;
                if all_digits(text@, 0, n as int) {
                    lemma_digits_val_mono(text@, 0, k + 1, n as int);
                }
            }
            return Err(Error::ParseError);
        }
        acc = acc * 10 + d;
        k = k + 1;
    }
    Ok(acc)
}

/// Copies a string's characters into a vector.
pub fn str_to_chars(s: &str) -> (r: Vec<char>)
    ensures
        r@ == s@,
{
    let n = s.unicode_len();
    let mut v: Vec<char> = Vec::new();
    let mut i: usize = 0;
    while i < n
        invariant
            0 <= i <= n,
            n == s@.len(),
            v@ == s@.subrange(0, i as int),
        decreases n - i,
    {
        v.push(s.get_char(i));
        proof {
            assert(v@ =~= s@.subrange(0, i + 1));
        }
        i = i + 1;
    }
    proof {
        assert(v@ =~= s@);
    }
    v
}

/// The first position of `c` in `chars[start..end]`, or `end`.
fn find_char_exec(chars: &Vec<char>, start: usize, end: usize, c: char) -> (r: usize)
    requires
        start <= end <= chars@.len(),
    ensures
        r == find_char(chars@, start as int, end as int, c),
        start <= r <= end,
{
    let mut k = start;
    while k < end
        invariant
            start <= k <= end <= chars@.len(),
            find_char(chars@, start as int, end as int, c) == find_char(
                chars@,
                k as int,
                end as int,
                c,
            ),
        decreases end - k,
    {
        if chars[k] == c {
            return k;
        }
        k = k + 1;
    }
    k
}

/// The first non-space position in `chars[start..end]`, or `end`.
fn skip_spaces_exec(chars: &Vec<char>, start: usize, end: usize) -> (r: usize)
    requires
        start <= end <= chars@.len(),
    ensures
        r == skip_spaces(chars@, start as int, end as int),
        start <= r <= end,
{
    let mut k = start;
    while k < end
        invariant
            start <= k <= end <= chars@.len(),
            skip_spaces(chars@, start as int, end as int) == skip_spaces(
                chars@,
                k as int,
                end as int,
            ),
        decreases end - k,
    {
        if chars[k] != ' ' {
            return k;
        }
        k = k + 1;
    }
    k
}

/// The last position of `c` in `chars[lo..end]`; a hit must exist.
fn rfind_char_exec(chars: &Vec<char>, lo: usize, end: usize, c: char) -> (r: usize)
    requires
        lo <= end <= chars@.len(),
        find_char(chars@, lo as int, end as int, c) < end as int,
    ensures
        r == rfind_char(chars@, lo as int, end as int, c),
        lo <= r < end,
{
    proof {
        lemma_find_char(chars@, lo as int, end as int, c);
        assert(chars@[find_char(chars@, lo as int, end as int, c)] == c);
        lemma_rfind_char(chars@, lo as int, end as int, c);
    }
    let mut k = end;
    while k > lo
        invariant
            lo <= k <= end <= chars@.len(),
            rfind_char(chars@, lo as int, end as int, c) == rfind_char(
                chars@,
                lo as int,
                k as int,
                c,
            ),
            lo <= rfind_char(chars@, lo as int, end as int, c),
        decreases k,
    {
        if chars[k - 1] == c {
            return k - 1;
        }
        k = k - 1;
    }
    proof {
        assert(rfind_char(chars@, lo as int, lo as int, c) == lo - 1);
        assert(false);
    }
    lo
}

/// The end of `chars[lo..end]` with trailing spaces dropped.
fn rskip_spaces_exec(chars: &Vec<char>, lo: usize, end: usize) -> (r: usize)
    requires
        lo <= end <= chars@.len(),
    ensures
        r == rskip_spaces(chars@, lo as int, end as int),
        lo <= r <= end,
{
    let mut k = end;
    while k > lo
        invariant
            lo <= k <= end <= chars@.len(),
            rskip_spaces(chars@, lo as int, end as int) == rskip_spaces(
                chars@,
                lo as int,
                k as int,
            ),
        decreases k,
    {
        if chars[k - 1] != ' ' {
            return k;
        }
        k = k - 1;
    }
    k
}

/// Whether every character of `chars[lo..end]` is a digit.
fn all_digits_exec(chars: &Vec<char>, lo: usize, end: usize) -> (r: bool)
    requires
        lo <= end <= chars@.len(),
    ensures
        r == all_digits(chars@, lo as int, end as int),
{
    let mut k = lo;
    while k < end
        invariant
            lo <= k <= end <= chars@.len(),
            all_digits(chars@, lo as int, k as int),
        decreases end - k,
    {
        let u = chars[k] as u32;
        if u < 0x30 || u > 0x39 {
            return false;
        }
        k = k + 1;
    }
    true
}

/// A childless node: a lexical rule and the text it matched.
pub open spec fn leaf(rule: Rule, text: Seq<char>) -> SyntaxNodeView {
    SyntaxNodeView { rule: rule, text: text, children: Seq::empty() }
}

/// A message node: the root-level message rule wrapping its named or
/// unnamed form, which in turn holds the message atoms in document order.
pub open spec fn message_node(named: bool, text: Seq<char>, atoms: Seq<SyntaxNodeView>) -> SyntaxNodeView {
    SyntaxNodeView {
        rule: Rule::IMessage,
        text: text,
        children: seq![
            SyntaxNodeView {
                rule: if named {
                    Rule::IMessageNamed
                } else {
                    Rule::IMessageUnnamed
                },
                text: text,
                children: atoms,
            },
        ],
    }
}

/// The node of one message line `s[lo..hi]`.
///
/// The head of the line, up to the first quote if there is one, is split on
/// spaces into: an optional all-digit id token, an optional speaker-name
/// token (any token not opening a bracket), and an optional `[tag]` sprite
/// token. With a quote, the content is what stands between the first and
/// the last quote; a lone quote, a malformed sprite token, a leftover head
/// token, or anything but spaces after the closing quote is rejected.
/// Without a quote, the content is the rest of the line after the id token,
/// trimmed of surrounding spaces and absent when empty. An id token whose
/// value does not fit the id's numeric range is rejected by the grammar,
/// here, before anything is persisted.
pub open spec fn message_line(s: Seq<char>, lo: int, hi: int) -> Result<SyntaxNodeView, Error> {
    let q1 = find_char(s, lo, hi, '"');
    let reg = if q1 < hi {
        q1
    } else {
        hi
    };
    let t0e = find_char(s, lo, reg, ' ');
    let has_num = t0e > lo && all_digits(s, lo, t0e);
    let num_nodes: Seq<SyntaxNodeView> = if has_num {
        seq![leaf(Rule::MessageNumber, s.subrange(lo, t0e))]
    } else {
        Seq::empty()
    };
    if has_num && i32_of_digits(s.subrange(lo, t0e)) is None {
        Err(Error::ParseError)
    } else if q1 < hi {
        let q2 = rfind_char(s, lo, hi, '"');
        if q2 == q1 {
            Err(Error::ParseError)
        } else if skip_spaces(s, q2 + 1, hi) != hi {
            Err(Error::ParseError)
        } else {
            let p = skip_spaces(
                s,
                if has_num {
                    t0e
                } else {
                    lo
                },
                q1,
            );
            let has_name = p < q1 && s[p] != '[';
            let ne = if has_name {
                find_char(s, p, q1, ' ')
            } else {
                p
            };
            let name_nodes: Seq<SyntaxNodeView> = if has_name {
                seq![leaf(Rule::MessageSpeakerName, s.subrange(p, ne))]
            } else {
                Seq::empty()
            };
            let an = skip_spaces(s, ne, q1);
            let has_tachie = an < q1 && s[an] == '[';
            let te = find_char(s, an, q1, ' ');
            if has_tachie && !(te - an >= 2 && s[te - 1] == ']') {
                Err(Error::ParseError)
            } else {
                let tachie_nodes: Seq<SyntaxNodeView> = if has_tachie {
                    seq![leaf(Rule::MessageSpeakerTachie, s.subrange(an + 1, te - 1))]
                } else {
                    Seq::empty()
                };
                let at = if has_tachie {
                    skip_spaces(s, te, q1)
                } else {
                    an
                };
                if at != q1 {
                    Err(Error::ParseError)
                } else {
                    let content = leaf(Rule::MessageContentQuoted, s.subrange(q1 + 1, q2));
                    Ok(
                        message_node(
                            has_name,
                            s.subrange(lo, hi),
                            num_nodes + name_nodes + tachie_nodes + seq![content],
                        ),
                    )
                }
            }
        }
    } else {
        let c0 = skip_spaces(s, t0e, hi);
        let ce = rskip_spaces(s, c0, hi);
        let content_nodes: Seq<SyntaxNodeView> = if c0 < ce {
            seq![leaf(Rule::MessageContentUnquoted, s.subrange(c0, ce))]
        } else {
            Seq::empty()
        };
        Ok(message_node(false, s.subrange(lo, hi), num_nodes + content_nodes))
    }
}

/// The node of one nonempty line `s[lo..hi]`: a comment when it opens with
/// `';'`, a directive when it opens with `'#'`, a message line when its
/// first token is all digits or it holds a quote, and plain non-message
/// text otherwise.
pub open spec fn classify_line(s: Seq<char>, lo: int, hi: int) -> Result<SyntaxNodeView, Error>
    recommends
        lo < hi,
{
    if s[lo] == ';' {
        Ok(leaf(Rule::IComment, s.subrange(lo, hi)))
    } else if s[lo] == '#' {
        Ok(leaf(Rule::IInclude, s.subrange(lo, hi)))
    } else {
        let q1 = find_char(s, lo, hi, '"');
        let reg = if q1 < hi {
            q1
        } else {
            hi
        };
        let t0e = find_char(s, lo, reg, ' ');
        let has_num = t0e > lo && all_digits(s, lo, t0e);
        if q1 == hi && !has_num {
            Ok(leaf(Rule::INonMessage, s.subrange(lo, hi)))
        } else {
            message_line(s, lo, hi)
        }
    }
}

/// The top-level nodes of the text from position `i` on: one node per
/// nonempty line, in document order, closed by an end-of-input node. A line
/// holding a character the grammar does not admit, or a malformed message
/// line, rejects the text.
pub open spec fn parse_lines(s: Seq<char>, i: int) -> Result<Seq<SyntaxNodeView>, Error>
    decreases s.len() + 1 - i,
{
    if i >= s.len() {
        Ok(seq![leaf(Rule::EOI, Seq::empty())])
    } else {
        let j = find_char(s, i, s.len() as int, '\n');
        proof {
            lemma_find_char(s, i, s.len() as int, '\n');
        }
        if i == j {
            parse_lines(s, j + 1)
        } else if !all_allowed(s, i, j) {
            Err(Error::ParseError)
        } else {
            match classify_line(s, i, j) {
                Err(e) => Err(e),
                Ok(node) => match parse_lines(s, j + 1) {
                    Err(e) => Err(e),
                    Ok(nodes) => Ok(seq![node] + nodes),
                },
            }
        }
    }
}

/// What parsing a whole script yields: the root node labeled with the
/// top-level rule, its children the line nodes.
pub open spec fn parse_spec(s: Seq<char>) -> Result<SyntaxNodeView, Error> {
    match parse_lines(s, 0) {
        Ok(children) => Ok(SyntaxNodeView { rule: Rule::Musica, text: s, children: children }),
        Err(e) => Err(e),
    }
}

/// Whether every character of `chars[lo..end]` is admitted by the grammar.
fn all_allowed_exec(chars: &Vec<char>, lo: usize, end: usize) -> (r: bool)
    requires
        lo <= end <= chars@.len(),
    ensures
        r == all_allowed(chars@, lo as int, end as int),
{
    let mut k = lo;
    while k < end
        invariant
            lo <= k <= end <= chars@.len(),
            all_allowed(chars@, lo as int, k as int),
        decreases end - k,
    {
        let u = chars[k] as u32;
        let ok = (0x20 <= u && u <= 0x7e) || (0x3000 <= u && u <= 0x30ff) || (0x4e00 <= u && u
            <= 0x9fff) || (0xff00 <= u && u <= 0xffef);
        if !ok {
            return false;
        }
        k = k + 1;
    }
    true
}

/// A message node weighs itself, its inner form, and its atoms.
proof fn lemma_message_node_size(named: bool, text: Seq<char>, atoms: Seq<SyntaxNodeView>)
    ensures
        node_size(message_node(named, text, atoms)) == 2 + subtree_sizes(atoms),
{
    lemma_subtree_sizes_single(
        SyntaxNodeView {
            rule: if named {
                Rule::IMessageNamed
            } else {
                Rule::IMessageUnnamed
            },
            text: text,
            children: atoms,
        },
    );
}

/// A leaf weighs one node.
proof fn lemma_leaf_size(rule: Rule, text: Seq<char>)
    ensures
        node_size(leaf(rule, text)) == 1,
{
    assert(subtree_sizes(leaf(rule, text).children) == 0);
}

/// Four atom groups of at most one leaf each weigh at most four.
proof fn lemma_atom_group_sizes(
    a: Seq<SyntaxNodeView>,
    b: Seq<SyntaxNodeView>,
    c: Seq<SyntaxNodeView>,
    d: Seq<SyntaxNodeView>,
)
    requires
        subtree_sizes(a) <= 1,
        subtree_sizes(b) <= 1,
        subtree_sizes(c) <= 1,
        subtree_sizes(d) <= 1,
    ensures
        subtree_sizes(a + b + c + d) <= 4,
{
    lemma_subtree_sizes_concat(a, b);
    lemma_subtree_sizes_concat(a + b, c);
    lemma_subtree_sizes_concat(a + b + c, d);
}

/// An optional single leaf weighs at most one.
proof fn lemma_opt_leaf_size(nodes: Seq<SyntaxNodeView>, rule: Rule, text: Seq<char>)
    requires
        nodes == Seq::<SyntaxNodeView>::empty() || nodes == seq![leaf(rule, text)],
    ensures
        subtree_sizes(nodes) <= 1,
{
    if nodes == seq![leaf(rule, text)] {
        lemma_subtree_sizes_single(leaf(rule, text));
        lemma_leaf_size(rule, text);
    }
}

/// Every node one line yields weighs at most six.
proof fn lemma_classify_line_size(s: Seq<char>, lo: int, hi: int)
    ensures
        classify_line(s, lo, hi) matches Ok(node) ==> node_size(node) <= 6,
{
    let q1 = find_char(s, lo, hi, '"');
    let reg = if q1 < hi {
        q1
    } else {
        hi
    };
    let t0e = find_char(s, lo, reg, ' ');
    let has_num = t0e > lo && all_digits(s, lo, t0e);
    let num_nodes: Seq<SyntaxNodeView> = if has_num {
        seq![leaf(Rule::MessageNumber, s.subrange(lo, t0e))]
    } else {
        Seq::empty()
    };
    lemma_leaf_size(Rule::IComment, s.subrange(lo, hi));
    lemma_leaf_size(Rule::IInclude, s.subrange(lo, hi));
    lemma_leaf_size(Rule::INonMessage, s.subrange(lo, hi));
    lemma_opt_leaf_size(num_nodes, Rule::MessageNumber, s.subrange(lo, t0e));
    if q1 < hi {
        let q2 = rfind_char(s, lo, hi, '"');
        let p = skip_spaces(
            s,
            if has_num {
                t0e
            } else {
                lo
            },
            q1,
        );
        let has_name = p < q1 && s[p] != '[';
        let ne = if has_name {
            find_char(s, p, q1, ' ')
        } else {
            p
        };
        let name_nodes: Seq<SyntaxNodeView> = if has_name {
            seq![leaf(Rule::MessageSpeakerName, s.subrange(p, ne))]
        } else {
            Seq::empty()
        };
        let an = skip_spaces(s, ne, q1);
        let has_tachie = an < q1 && s[an] == '[';
        let te = find_char(s, an, q1, ' ');
        let tachie_nodes: Seq<SyntaxNodeView> = if has_tachie {
            seq![leaf(Rule::MessageSpeakerTachie, s.subrange(an + 1, te - 1))]
        } else {
            Seq::empty()
        };
        let content = leaf(Rule::MessageContentQuoted, s.subrange(q1 + 1, q2));
        lemma_opt_leaf_size(name_nodes, Rule::MessageSpeakerName, s.subrange(p, ne));
        lemma_opt_leaf_size(tachie_nodes, Rule::MessageSpeakerTachie, s.subrange(an + 1, te - 1));
        lemma_opt_leaf_size(seq![content], Rule::MessageContentQuoted, s.subrange(q1 + 1, q2));
        lemma_atom_group_sizes(num_nodes, name_nodes, tachie_nodes, seq![content]);
        lemma_message_node_size(
            has_name,
            s.subrange(lo, hi),
            num_nodes + name_nodes + tachie_nodes + seq![content],
        );
    } else {
        let c0 = skip_spaces(s, t0e, hi);
        let ce = rskip_spaces(s, c0, hi);
        let content_nodes: Seq<SyntaxNodeView> = if c0 < ce {
            seq![leaf(Rule::MessageContentUnquoted, s.subrange(c0, ce))]
        } else {
            Seq::empty()
        };
        lemma_opt_leaf_size(content_nodes, Rule::MessageContentUnquoted, s.subrange(c0, ce));
        lemma_subtree_sizes_concat(num_nodes, content_nodes);
        lemma_message_node_size(false, s.subrange(lo, hi), num_nodes + content_nodes);
    }
}

/// The nodes of a parsed text, from position `i` on, weigh at most six per
/// remaining character plus the end-of-input node.
pub proof fn lemma_parse_lines_size(s: Seq<char>, i: int)
    requires
        0 <= i,
    ensures
        parse_lines(s, i) matches Ok(children) ==> i <= s.len() ==> subtree_sizes(children) <= 6
            * (s.len() - i) + 1,
        parse_lines(s, i) matches Ok(children) ==> i > s.len() ==> subtree_sizes(children) <= 1,
    decreases s.len() + 1 - i,
{
    if i >= s.len() {
        lemma_subtree_sizes_single(leaf(Rule::EOI, Seq::empty()));
        lemma_leaf_size(Rule::EOI, Seq::empty());
    } else {
        let j = find_char(s, i, s.len() as int, '\n');
        lemma_find_char(s, i, s.len() as int, '\n');
        lemma_parse_lines_size(s, j + 1);
        if i < j && all_allowed(s, i, j) {
            lemma_classify_line_size(s, i, j);
            match classify_line(s, i, j) {
                Ok(node) => match parse_lines(s, j + 1) {
                    Ok(nodes) => {
                        lemma_subtree_sizes_single(node);
                        lemma_subtree_sizes_concat(seq![node], nodes);
                    },
                    Err(_) => {},
                },
                Err(_) => {},
            }
        }
    }
}

/// A leaf is free of the top-level rule when its own rule is.
proof fn lemma_musica_free_leaf(rule: Rule, text: Seq<char>)
    requires
        rule != Rule::Musica,
    ensures
        musica_free(leaf(rule, text)),
{
    assert(leaf(rule, text).children.len() == 0);
}

/// Concatenation keeps freedom from the top-level rule.
proof fn lemma_musica_free_concat(a: Seq<SyntaxNodeView>, b: Seq<SyntaxNodeView>)
    requires
        forall|i: int| 0 <= i < a.len() ==> musica_free(#[trigger] a[i]),
        forall|i: int| 0 <= i < b.len() ==> musica_free(#[trigger] b[i]),
    ensures
        forall|i: int| 0 <= i < (a + b).len() ==> musica_free(#[trigger] (a + b)[i]),
{
    assert forall|i: int| 0 <= i < (a + b).len() implies musica_free(#[trigger] (a + b)[i]) by {
        if i < a.len() {
            assert((a + b)[i] == a[i]);
        } else {
            assert((a + b)[i] == b[i - a.len()]);
        }
    }
}

/// An optional single leaf is free of the top-level rule.
proof fn lemma_musica_free_opt_leaf(nodes: Seq<SyntaxNodeView>, rule: Rule, text: Seq<char>)
    requires
        nodes == Seq::<SyntaxNodeView>::empty() || nodes == seq![leaf(rule, text)],
        rule != Rule::Musica,
    ensures
        forall|i: int| 0 <= i < nodes.len() ==> musica_free(#[trigger] nodes[i]),
{
    if nodes == seq![leaf(rule, text)] {
        lemma_musica_free_leaf(rule, text);
        assert(nodes[0] == leaf(rule, text));
    }
}

/// A message node over atoms free of the top-level rule is itself free.
proof fn lemma_musica_free_message_node(named: bool, text: Seq<char>, atoms: Seq<SyntaxNodeView>)
    requires
        forall|i: int| 0 <= i < atoms.len() ==> musica_free(#[trigger] atoms[i]),
    ensures
        musica_free(message_node(named, text, atoms)),
{
    let inner = SyntaxNodeView {
        rule: if named {
            Rule::IMessageNamed
        } else {
            Rule::IMessageUnnamed
        },
        text: text,
        children: atoms,
    };
    assert(musica_free(inner));
    assert(message_node(named, text, atoms).children[0] == inner);
}

/// Every node one line yields is free of the top-level rule.
proof fn lemma_classify_line_musica_free(s: Seq<char>, lo: int, hi: int)
    ensures
        classify_line(s, lo, hi) matches Ok(node) ==> musica_free(node),
{
    let q1 = find_char(s, lo, hi, '"');
    let reg = if q1 < hi {
        q1
    } else {
        hi
    };
    let t0e = find_char(s, lo, reg, ' ');
    let has_num = t0e > lo && all_digits(s, lo, t0e);
    let num_nodes: Seq<SyntaxNodeView> = if has_num {
        seq![leaf(Rule::MessageNumber, s.subrange(lo, t0e))]
    } else {
        Seq::empty()
    };
    lemma_musica_free_leaf(Rule::IComment, s.subrange(lo, hi));
    lemma_musica_free_leaf(Rule::IInclude, s.subrange(lo, hi));
    lemma_musica_free_leaf(Rule::INonMessage, s.subrange(lo, hi));
    lemma_musica_free_opt_leaf(num_nodes, Rule::MessageNumber, s.subrange(lo, t0e));
    if q1 < hi {
        let q2 = rfind_char(s, lo, hi, '"');
        let p = skip_spaces(
            s,
            if has_num {
                t0e
            } else {
                lo
            },
            q1,
        );
        let has_name = p < q1 && s[p] != '[';
        let ne = if has_name {
            find_char(s, p, q1, ' ')
        } else {
            p
        };
        let name_nodes: Seq<SyntaxNodeView> = if has_name {
            seq![leaf(Rule::MessageSpeakerName, s.subrange(p, ne))]
        } else {
            Seq::empty()
        };
        let an = skip_spaces(s, ne, q1);
        let has_tachie = an < q1 && s[an] == '[';
        let te = find_char(s, an, q1, ' ');
        let tachie_nodes: Seq<SyntaxNodeView> = if has_tachie {
            seq![leaf(Rule::MessageSpeakerTachie, s.subrange(an + 1, te - 1))]
        } else {
            Seq::empty()
        };
        let content = leaf(Rule::MessageContentQuoted, s.subrange(q1 + 1, q2));
        lemma_musica_free_opt_leaf(name_nodes, Rule::MessageSpeakerName, s.subrange(p, ne));
        lemma_musica_free_opt_leaf(
            tachie_nodes,
            Rule::MessageSpeakerTachie,
            s.subrange(an + 1, te - 1),
        );
        lemma_musica_free_opt_leaf(
            seq![content],
            Rule::MessageContentQuoted,
            s.subrange(q1 + 1, q2),
        );
        lemma_musica_free_concat(num_nodes, name_nodes);
        lemma_musica_free_concat(num_nodes + name_nodes, tachie_nodes);
        lemma_musica_free_concat(num_nodes + name_nodes + tachie_nodes, seq![content]);
        lemma_musica_free_message_node(
            has_name,
            s.subrange(lo, hi),
            num_nodes + name_nodes + tachie_nodes + seq![content],
        );
    } else {
        let c0 = skip_spaces(s, t0e, hi);
        let ce = rskip_spaces(s, c0, hi);
        let content_nodes: Seq<SyntaxNodeView> = if c0 < ce {
            seq![leaf(Rule::MessageContentUnquoted, s.subrange(c0, ce))]
        } else {
            Seq::empty()
        };
        lemma_musica_free_opt_leaf(content_nodes, Rule::MessageContentUnquoted, s.subrange(c0, ce));
        lemma_musica_free_concat(num_nodes, content_nodes);
        lemma_musica_free_message_node(false, s.subrange(lo, hi), num_nodes + content_nodes);
    }
}

/// Every top-level node of a parsed text is free of the top-level rule:
/// the root is the only node the grammar labels with it.
pub proof fn lemma_parse_lines_musica_free(s: Seq<char>, i: int)
    requires
        0 <= i,
    ensures
        parse_lines(s, i) matches Ok(children) ==> forall|j: int|
            0 <= j < children.len() ==> musica_free(#[trigger] children[j]),
    decreases s.len() + 1 - i,
{
    if i >= s.len() {
        lemma_musica_free_leaf(Rule::EOI, Seq::empty());
        match parse_lines(s, i) {
            Ok(children) => {
                assert(children[0] == leaf(Rule::EOI, Seq::empty()));
            },
            Err(_) => {},
        }
    } else {
        let j = find_char(s, i, s.len() as int, '\n');
        lemma_find_char(s, i, s.len() as int, '\n');
        lemma_parse_lines_musica_free(s, j + 1);
        if i < j && all_allowed(s, i, j) {
            lemma_classify_line_musica_free(s, i, j);
            match classify_line(s, i, j) {
                Ok(node) => match parse_lines(s, j + 1) {
                    Ok(nodes) => {
                        lemma_musica_free_concat(seq![node], nodes);
                        assert(seq![node][0] == node);
                    },
                    Err(_) => {},
                },
                Err(_) => {},
            }
        }
    }
}

/// Concatenation keeps the message-atom shape.
proof fn lemma_message_atoms_concat(a: Seq<SyntaxNodeView>, b: Seq<SyntaxNodeView>)
    requires
        forall|i: int| 0 <= i < a.len() ==> is_message_atom(#[trigger] a[i]),
        forall|i: int| 0 <= i < b.len() ==> is_message_atom(#[trigger] b[i]),
    ensures
        forall|i: int| 0 <= i < (a + b).len() ==> is_message_atom(#[trigger] (a + b)[i]),
{
    assert forall|i: int| 0 <= i < (a + b).len() implies is_message_atom(
        #[trigger] (a + b)[i],
    ) by {
        if i < a.len() {
            assert((a + b)[i] == a[i]);
        } else {
            assert((a + b)[i] == b[i - a.len()]);
        }
    }
}

/// An optional single atom leaf has the message-atom shape.
proof fn lemma_message_atoms_opt_leaf(nodes: Seq<SyntaxNodeView>, rule: Rule, text: Seq<char>)
    requires
        nodes == Seq::<SyntaxNodeView>::empty() || nodes == seq![leaf(rule, text)],
        nodes == seq![leaf(rule, text)] ==> is_message_atom(leaf(rule, text)),
    ensures
        forall|i: int| 0 <= i < nodes.len() ==> is_message_atom(#[trigger] nodes[i]),
{
    if nodes == seq![leaf(rule, text)] {
        assert(nodes[0] == leaf(rule, text));
    }
}

/// Walking a message node over well-shaped atoms never reports a grammar
/// rejection: the walk can only succeed or fail finalizing the builder.
proof fn lemma_walk_message_node(
    named: bool,
    text: Seq<char>,
    atoms: Seq<SyntaxNodeView>,
    line: int,
)
    requires
        forall|i: int| 0 <= i < atoms.len() ==> is_message_atom(#[trigger] atoms[i]),
    ensures
        walk(message_node(named, text, atoms), line).result != Err::<
            Option<InsertModelBuilderView>,
            Error,
        >(Error::ParseError),
{
    let node = message_node(named, text, atoms);
    let inner = node.children[0];
    assert(node.children.len() == 1);
    assert(inner.rule == Rule::IMessageNamed || inner.rule == Rule::IMessageUnnamed);
    assert(inner.children == atoms);
    let start = IMessageModelBuilderView {
        line: Option::Some(line),
        id: Option::None,
        name: Option::None,
        tachie: Option::None,
        content: Option::None,
    };
    lemma_walk_fragments_atoms(atoms, line, start);
    let o = walk_fragments(atoms, line, start);
    assert(walk(inner, line).result == (match o.1 {
        Ok(b) => Ok::<Option<InsertModelBuilderView>, Error>(
            Option::Some(InsertModelBuilderView::IMessage(b)),
        ),
        Err(e) => Err::<Option<InsertModelBuilderView>, Error>(e),
    }));
    match o.1 {
        Ok(b) => {
            match message_build(b) {
                Ok(_) => {},
                Err(e) => {
                    assert(e is BuildError);
                },
            }
        },
        Err(_) => {},
    }
}

/// Every node one line yields walks without a grammar rejection, at any
/// line number: the walk of a parsed tree can fail only while finalizing
/// or merging builders.
proof fn lemma_classify_line_walk(s: Seq<char>, lo: int, hi: int, line: int)
    ensures
        classify_line(s, lo, hi) matches Ok(node) ==> walk(node, line).result != Err::<
            Option<InsertModelBuilderView>,
            Error,
        >(Error::ParseError),
{
    let q1 = find_char(s, lo, hi, '"');
    let reg = if q1 < hi {
        q1
    } else {
        hi
    };
    let t0e = find_char(s, lo, reg, ' ');
    let has_num = t0e > lo && all_digits(s, lo, t0e);
    let num_nodes: Seq<SyntaxNodeView> = if has_num {
        seq![leaf(Rule::MessageNumber, s.subrange(lo, t0e))]
    } else {
        Seq::empty()
    };
    if classify_line(s, lo, hi) is Ok && !(s[lo] == ';' || s[lo] == '#' || (q1 == hi && !has_num)) {
        assert(is_message_atom(leaf(Rule::MessageNumber, s.subrange(lo, t0e))) || !has_num);
        lemma_message_atoms_opt_leaf(num_nodes, Rule::MessageNumber, s.subrange(lo, t0e));
        if q1 < hi {
            let q2 = rfind_char(s, lo, hi, '"');
            let p = skip_spaces(
                s,
                if has_num {
                    t0e
                } else {
                    lo
                },
                q1,
            );
            let has_name = p < q1 && s[p] != '[';
            let ne = if has_name {
                find_char(s, p, q1, ' ')
            } else {
                p
            };
            let name_nodes: Seq<SyntaxNodeView> = if has_name {
                seq![leaf(Rule::MessageSpeakerName, s.subrange(p, ne))]
            } else {
                Seq::empty()
            };
            let an = skip_spaces(s, ne, q1);
            let has_tachie = an < q1 && s[an] == '[';
            let te = find_char(s, an, q1, ' ');
            let tachie_nodes: Seq<SyntaxNodeView> = if has_tachie {
                seq![leaf(Rule::MessageSpeakerTachie, s.subrange(an + 1, te - 1))]
            } else {
                Seq::empty()
            };
            let content = leaf(Rule::MessageContentQuoted, s.subrange(q1 + 1, q2));
            lemma_message_atoms_opt_leaf(name_nodes, Rule::MessageSpeakerName, s.subrange(p, ne));
            lemma_message_atoms_opt_leaf(
                tachie_nodes,
                Rule::MessageSpeakerTachie,
                s.subrange(an + 1, te - 1),
            );
            lemma_message_atoms_opt_leaf(
                seq![content],
                Rule::MessageContentQuoted,
                s.subrange(q1 + 1, q2),
            );
            lemma_message_atoms_concat(num_nodes, name_nodes);
            lemma_message_atoms_concat(num_nodes + name_nodes, tachie_nodes);
            lemma_message_atoms_concat(num_nodes + name_nodes + tachie_nodes, seq![content]);
            lemma_walk_message_node(
                has_name,
                s.subrange(lo, hi),
                num_nodes + name_nodes + tachie_nodes + seq![content],
                line,
            );
        } else {
            let c0 = skip_spaces(s, t0e, hi);
            let ce = rskip_spaces(s, c0, hi);
            let content_nodes: Seq<SyntaxNodeView> = if c0 < ce {
                seq![leaf(Rule::MessageContentUnquoted, s.subrange(c0, ce))]
            } else {
                Seq::empty()
            };
            lemma_message_atoms_opt_leaf(
                content_nodes,
                Rule::MessageContentUnquoted,
                s.subrange(c0, ce),
            );
            lemma_message_atoms_concat(num_nodes, content_nodes);
            lemma_walk_message_node(false, s.subrange(lo, hi), num_nodes + content_nodes, line);
        }
    }
}

/// A rejected text is always rejected with `ParseError`.
pub proof fn lemma_parse_lines_err(s: Seq<char>, i: int)
    requires
        0 <= i,
    ensures
        parse_lines(s, i) is Err ==> parse_lines(s, i) == Err::<Seq<SyntaxNodeView>, Error>(
            Error::ParseError,
        ),
    decreases s.len() + 1 - i,
{
    if i < s.len() {
        let j = find_char(s, i, s.len() as int, '\n');
        lemma_find_char(s, i, s.len() as int, '\n');
        lemma_parse_lines_err(s, j + 1);
    }
}

/// The top-level walk of a parsed text never reports a grammar rejection:
/// once the grammar accepted the text, `ParseError` cannot arise.
pub proof fn lemma_parse_lines_walk(s: Seq<char>, i: int, line: int)
    requires
        0 <= i,
    ensures
        parse_lines(s, i) matches Ok(children) ==> walk_top(children, line).1 != Err::<
            (),
            Error,
        >(Error::ParseError),
    decreases s.len() + 1 - i,
{
    if i >= s.len() {
        match parse_lines(s, i) {
            Ok(children) => {
                assert(children[0] == leaf(Rule::EOI, Seq::empty()));
                assert(children.drop_first() =~= Seq::<SyntaxNodeView>::empty());
                assert(walk(children[0], line).result == Ok::<
                    Option<InsertModelBuilderView>,
                    Error,
                >(Option::None));
                assert(walk_top(children.drop_first(), line + 1).1 == Ok::<(), Error>(()));
                assert(walk_top(children, line).1 == Ok::<(), Error>(()));
            },
            Err(_) => {},
        }
    } else {
        let j = find_char(s, i, s.len() as int, '\n');
        lemma_find_char(s, i, s.len() as int, '\n');
        lemma_parse_lines_walk(s, j + 1, line + 1);
        if i < j && all_allowed(s, i, j) {
            lemma_classify_line_walk(s, i, j, line);
            match classify_line(s, i, j) {
                Ok(node) => match parse_lines(s, j + 1) {
                    Ok(nodes) => {
                        let children = seq![node] + nodes;
                        assert(children[0] == node);
                        assert(children.drop_first() =~= nodes);
                        assert(walk_top(children, line).1 == (match walk(node, line).result {
                            Err(e) => Err::<(), Error>(e),
                            Ok(_) => walk_top(nodes, line + 1).1,
                        }));
                    },
                    Err(_) => {},
                },
                Err(_) => {},
            }
        } else if i == j {
            lemma_parse_lines_walk(s, j + 1, line);
        }
    }
}

/// Pushing a node onto a sequence extends the sequence of views.
pub proof fn lemma_node_views_push(s: Seq<SyntaxNode>, x: SyntaxNode)
    ensures
        node_views(s.push(x)) == node_views(s).push(node_view(x)),
{
    assert(s.push(x).drop_last() =~= s);
    assert(s.push(x).last() == x);
}

/// The characters of `content[lo..hi]`, as an owned string.
fn substring(content: &str, lo: usize, hi: usize) -> (r: String)
    requires
        lo <= hi <= content@.len(),
    ensures
        r@ == content@.subrange(lo as int, hi as int),
{
    content.substring_char(lo, hi).to_owned()
}

/// A childless node.
fn leaf_exec(rule: Rule, text: String) -> (r: SyntaxNode)
    ensures
        r@ == leaf(rule, text@),
{
    let r = SyntaxNode { rule, text, children: Vec::new() };
    proof {
        assert(node_views(r.children@) =~= Seq::<SyntaxNodeView>::empty());
    }
    r
}

/// Wraps the atoms of one message line in its named or unnamed form and the
/// root-level message rule.
fn build_message(named: bool, text: String, atoms: Vec<SyntaxNode>) -> (r: SyntaxNode)
    ensures
        r@ == message_node(named, text@, node_views(atoms@)),
{
    let rule = if named {
        Rule::IMessageNamed
    } else {
        Rule::IMessageUnnamed
    };
    let inner = SyntaxNode { rule, text: text.clone(), children: atoms };
    let mut outer_children: Vec<SyntaxNode> = Vec::new();
    outer_children.push(inner);
    let r = SyntaxNode { rule: Rule::IMessage, text, children: outer_children };
    proof {
        lemma_node_views(r.children@);
        assert(node_views(r.children@) =~= seq![node_view(inner)]);
    }
    r
}

/// Builds the node of one nonempty line, mirroring `classify_line`.
#[verifier::rlimit(50)]
fn classify_exec(content: &str, chars: &Vec<char>, lo: usize, hi: usize) -> (r: Result<
    SyntaxNode,
    Error,
>)
    requires
        chars@ == content@,
        lo < hi,
        hi <= chars@.len(),
    ensures
        match r {
            Ok(node) => classify_line(chars@, lo as int, hi as int) == Ok::<
                SyntaxNodeView,
                Error,
            >(node@),
            Err(e) => classify_line(chars@, lo as int, hi as int) == Err::<
                SyntaxNodeView,
                Error,
            >(e),
        },
{
    let ghost s = chars@;
    if chars[lo] == ';' {
        return Ok(leaf_exec(Rule::IComment, substring(content, lo, hi)));
    }
    if chars[lo] == '#' {
        return Ok(leaf_exec(Rule::IInclude, substring(content, lo, hi)));
    }
    let q1 = find_char_exec(chars, lo, hi, '"');
    let reg = if q1 < hi {
        q1
    } else {
        hi
    };
    let t0e = find_char_exec(chars, lo, reg, ' ');
    let has_num = t0e > lo && all_digits_exec(chars, lo, t0e);
    if q1 == hi && !has_num {
        return Ok(leaf_exec(Rule::INonMessage, substring(content, lo, hi)));
    }
    if has_num {
        let token = substring(content, lo, t0e);
        match parse_i32(token.as_str()) {
            Err(_) => {
                return Err(Error::ParseError);
            },
            Ok(_) => {},
        }
    }
    let text = substring(content, lo, hi);
    let mut atoms: Vec<SyntaxNode> = Vec::new();
    let ghost num_nodes: Seq<SyntaxNodeView> = if has_num {
        seq![leaf(Rule::MessageNumber, s.subrange(lo as int, t0e as int))]
    } else {
        Seq::empty()
    };
    if has_num {
        let a = leaf_exec(Rule::MessageNumber, substring(content, lo, t0e));
        proof {
            lemma_node_views_push(atoms@, a);
        }
        atoms.push(a);
    }
    proof {
        assert(node_views(atoms@) =~= num_nodes);
    }
    if q1 < hi {
        proof {
            lemma_find_char(s, lo as int, hi as int, '"');
        }
        let q2 = rfind_char_exec(chars, lo, hi, '"');
        proof {
            lemma_rfind_char(s, lo as int, hi as int, '"');
            assert(s[q1 as int] == '"');
            assert(q2 >= q1);
        }
        if q2 == q1 {
            return Err(Error::ParseError);
        }
        if skip_spaces_exec(chars, q2 + 1, hi) != hi {
            return Err(Error::ParseError);
        }
        let p = skip_spaces_exec(
            chars,
            if has_num {
                t0e
            } else {
                lo
            },
            q1,
        );
        let has_name = p < q1 && chars[p] != '[';
        let ne = if has_name {
            find_char_exec(chars, p, q1, ' ')
        } else {
            p
        };
        let ghost name_nodes: Seq<SyntaxNodeView> = if has_name {
            seq![leaf(Rule::MessageSpeakerName, s.subrange(p as int, ne as int))]
        } else {
            Seq::empty()
        };
        if has_name {
            let a = leaf_exec(Rule::MessageSpeakerName, substring(content, p, ne));
            proof {
                lemma_node_views_push(atoms@, a);
            }
            atoms.push(a);
        }
        proof {
            assert(node_views(atoms@) =~= num_nodes + name_nodes);
        }
        let an = skip_spaces_exec(chars, ne, q1);
        let has_tachie = an < q1 && chars[an] == '[';
        let te = find_char_exec(chars, an, q1, ' ');
        let ghost tachie_nodes: Seq<SyntaxNodeView> = if has_tachie {
            seq![leaf(Rule::MessageSpeakerTachie, s.subrange(an + 1 as int, te - 1 as int))]
        } else {
            Seq::empty()
        };
        if has_tachie {
            proof {
                lemma_find_char(s, an as int, q1 as int, ' ');
                assert(te > an) by {
                    if te == an {
                        assert(s[an as int] == ' ');
                    }
                }
            }
            if !(te - an >= 2 && chars[te - 1] == ']') {
                return Err(Error::ParseError);
            }
            let a = leaf_exec(Rule::MessageSpeakerTachie, substring(content, an + 1, te - 1));
            proof {
                lemma_node_views_push(atoms@, a);
            }
            atoms.push(a);
        }
        proof {
            assert(node_views(atoms@) =~= num_nodes + name_nodes + tachie_nodes);
        }
        let at = if has_tachie {
            skip_spaces_exec(chars, te, q1)
        } else {
            an
        };
        if at != q1 {
            return Err(Error::ParseError);
        }
        let ghost content_node = leaf(Rule::MessageContentQuoted, s.subrange(q1 + 1, q2 as int));
        let a = leaf_exec(Rule::MessageContentQuoted, substring(content, q1 + 1, q2));
        proof {
            lemma_node_views_push(atoms@, a);
        }
        atoms.push(a);
        proof {
            assert(node_views(atoms@) =~= num_nodes + name_nodes + tachie_nodes + seq![
                content_node,
            ]);
        }
        let node = build_message(has_name, text, atoms);
        return Ok(node);
    } else {
        let c0 = skip_spaces_exec(chars, t0e, hi);
        let ce = rskip_spaces_exec(chars, c0, hi);
        let ghost content_nodes: Seq<SyntaxNodeView> = if c0 < ce {
            seq![leaf(Rule::MessageContentUnquoted, s.subrange(c0 as int, ce as int))]
        } else {
            Seq::empty()
        };
        if c0 < ce {
            let a = leaf_exec(Rule::MessageContentUnquoted, substring(content, c0, ce));
            proof {
                lemma_node_views_push(atoms@, a);
            }
            atoms.push(a);
        }
        proof {
            assert(node_views(atoms@) =~= num_nodes + content_nodes);
        }
        let node = build_message(false, text, atoms);
        return Ok(node);
    }
}

/// Parses a whole script into its syntax tree, or rejects it.
pub(crate) fn parse_text(content: &str) -> (r: Result<SyntaxNode, Error>)
    requires
        content@.len() < usize::MAX,
    ensures
        match r {
            Ok(t) => parse_spec(content@) == Ok::<SyntaxNodeView, Error>(t@),
            Err(e) => parse_spec(content@) == Err::<SyntaxNodeView, Error>(e),
        },
{
    let chars = str_to_chars(content);
    let n = chars.len();
    let mut children: Vec<SyntaxNode> = Vec::new();
    let mut i: usize = 0;
    while i < n
        invariant
            0 <= i <= n + 1,
            n == content@.len(),
            n < usize::MAX,
            chars@ == content@,
            ({
                let full = parse_lines(content@, 0);
                match parse_lines(content@, i as int) {
                    Ok(rest) => full == Ok::<Seq<SyntaxNodeView>, Error>(
                        node_views(children@) + rest,
                    ),
                    Err(e) => full == Err::<Seq<SyntaxNodeView>, Error>(e),
                }
            }),
        decreases n + 1 - i,
    {
        let ghost s = content@;
        let ghost pre_children = children@;
        let j = find_char_exec(&chars, i, n, '\n');
        proof {
            lemma_find_char(s, i as int, n as int, '\n');
        }
        let ghost jn = j as int + 1;
        if i < j {
            if !all_allowed_exec(&chars, i, j) {
                proof {
                    assert(parse_lines(s, i as int) == Err::<Seq<SyntaxNodeView>, Error>(
                        Error::ParseError,
                    ));
                }
                return Err(Error::ParseError);
            }
            match classify_exec(content, &chars, i, j) {
                Err(e) => {
                    proof {
                        assert(parse_lines(s, i as int) == Err::<Seq<SyntaxNodeView>, Error>(e));
                    }
                    return Err(e);
                },
                Ok(node) => {
                    proof {
                        lemma_node_views_push(children@, node);
                    }
                    children.push(node);
                    proof {
                        match parse_lines(s, jn) {
                            Ok(rest2) => {
                                assert(parse_lines(s, i as int) == Ok::<
                                    Seq<SyntaxNodeView>,
                                    Error,
                                >(seq![node@] + rest2));
                                assert(node_views(pre_children) + (seq![node@] + rest2)
                                    =~= node_views(children@) + rest2);
                            },
                            Err(e2) => {
                                assert(parse_lines(s, i as int) == Err::<
                                    Seq<SyntaxNodeView>,
                                    Error,
                                >(e2));
                            },
                        }
                    }
                },
            }
        } else {
            proof {
                assert(parse_lines(s, i as int) == parse_lines(s, jn));
            }
        }
        i = j + 1;
    }
    let ghost s = content@;
    let ghost pre_children = children@;
    proof {
        assert(parse_lines(s, i as int) == Ok::<Seq<SyntaxNodeView>, Error>(
            seq![leaf(Rule::EOI, Seq::empty())],
        ));
    }
    let eoi = leaf_exec(Rule::EOI, String::new());
    proof {
        lemma_node_views_push(children@, eoi);
    }
    children.push(eoi);
    proof {
        assert(node_views(pre_children) + seq![leaf(Rule::EOI, Seq::empty())] =~= node_views(
            children@,
        ));
        assert(parse_lines(s, 0) == Ok::<Seq<SyntaxNodeView>, Error>(node_views(children@)));
    }
    let text = content.to_owned();
    let root = SyntaxNode { rule: Rule::Musica, text, children };
    Ok(root)
}

} // verus!
