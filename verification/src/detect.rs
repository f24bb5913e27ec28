//! Test-section detector: a recursive, pruning walk over the parsed
//! tree that turns every outermost test-qualified declaration into an
//! inclusive line range, and the materialization of those ranges into
//! a per-line membership vector.

use vstd::prelude::*;
use crate::classify::{clamp_offset, line_count};
use crate::strutil::{contains_seq, str_contains, str_eq};

verus! {

/// The kinds of tree node the detector distinguishes.
#[derive(Clone, Copy, Debug, PartialEq, Eq, Structural)]
pub enum NodeKind {
    /// A function-like declaration, which annotations can qualify.
    Function,
    /// A module-like declaration, which annotations can qualify.
    Module,
    /// Any other node.
    Other,
}

/// One annotation attached to a declaration: its path and, when it
/// has one, the serialized text of its argument token stream.
pub struct Attr {
    pub name: String,
    pub args: Option<String>,
}

/// One node of the parsed tree: its kind, its byte range in the file,
/// its annotations, and its children.
pub struct Node {
    pub kind: NodeKind,
    pub start: usize,
    pub end: usize,
    pub attrs: Vec<Attr>,
    pub children: Vec<Node>,
}

/// An inclusive range of 0-based lines occupied by one test section.
#[derive(Clone, Copy, Debug, PartialEq, Eq, Structural)]
pub struct CodeSection {
    /// First line of the section.
    pub start_line: usize,
    /// Last line of the section, inclusive.
    pub end_line: usize,
}

// ---------------------------------------------------------------------
// Test qualification
// ---------------------------------------------------------------------

/// An annotation that is the bare marker `test`.
pub open spec fn attr_is_bare_test(a: Attr) -> bool {
    a.name@ == "test"@
}

/// An annotation named `cfg` whose argument text contains `test`.
pub open spec fn attr_is_cfg_test(a: Attr) -> bool {
    a.name@ == "cfg"@ && match a.args {
        Some(args) => contains_seq(args@, "test"@),
        None => false,
    }
}

/// A node is test-qualified when it is a function-like or
/// module-like declaration carrying a bare `test` marker or a `cfg`
/// annotation mentioning `test`.
pub open spec fn is_test_node_spec(n: Node) -> bool {
    match n.kind {
        NodeKind::Function => exists|i: int|
            0 <= i < n.attrs@.len() && (attr_is_bare_test(#[trigger] n.attrs@[i])
                || attr_is_cfg_test(n.attrs@[i])),
        NodeKind::Module => exists|i: int|
            0 <= i < n.attrs@.len() && (attr_is_bare_test(#[trigger] n.attrs@[i])
                || attr_is_cfg_test(n.attrs@[i])),
        NodeKind::Other => false,
    }
}

/// Whether one annotation's argument text contains `test`.
fn attr_has_cfg_test_args(a: &Attr) -> (r: bool)
    ensures
        r == match a.args {
            Some(args) => contains_seq(args@, "test"@),
            None => false,
        },
{
    match &a.args {
        Some(args) => str_contains(args.as_str(), "test"),
        None => false,
    }
}

/// Decides whether a node is test-qualified.
pub fn is_test_node(n: &Node) -> (r: bool)
    ensures
        r == is_test_node_spec(*n),
{
    match n.kind {
        NodeKind::Function => {
            let mut i: usize = 0;
            while i < n.attrs.len()
                invariant
                    0 <= i <= n.attrs@.len(),
                    n.kind == NodeKind::Function,
                    forall|k: int|
                        0 <= k < i ==> !(attr_is_bare_test(#[trigger] n.attrs@[k])
                            || attr_is_cfg_test(n.attrs@[k])),
                decreases n.attrs@.len() - i,
            {
                let a = &n.attrs[i];
                if str_eq(a.name.as_str(), "test") {
                    return true;
                }
                if str_eq(a.name.as_str(), "cfg") && attr_has_cfg_test_args(a) {
                    return true;
                }
                i = i + 1;
            }
            false
        },
        NodeKind::Module => {
            let mut i: usize = 0;
            while i < n.attrs.len()
                invariant
                    0 <= i <= n.attrs@.len(),
                    n.kind == NodeKind::Module,
                    forall|k: int|
                        0 <= k < i ==> !(attr_is_bare_test(#[trigger] n.attrs@[k])
                            || attr_is_cfg_test(n.attrs@[k])),
                decreases n.attrs@.len() - i,
            {
                let a = &n.attrs[i];
                if str_eq(a.name.as_str(), "test") {
                    return true;
                }
                if str_eq(a.name.as_str(), "cfg") && attr_has_cfg_test_args(a) {
                    return true;
                }
                i = i + 1;
            }
            false
        },
        NodeKind::Other => false,
    }
}

// ---------------------------------------------------------------------
// Section collection
// ---------------------------------------------------------------------

/// The line a byte offset falls on when computed from the prefix up to
/// it: one less than the prefix's line count, at least zero.
pub open spec fn prefix_line(t: Seq<u8>, off: int) -> int {
    let n = line_count(t.take(clamp_offset(t, off))) - 1;
    if n < 0 {
        0
    } else {
        n
    }
}

/// The line range of one test-qualified node.
pub open spec fn section_of(t: Seq<u8>, n: Node) -> (int, int) {
    (prefix_line(t, n.start as int), prefix_line(t, n.end as int))
}

/// The sections of the first `i` children of a node, in order.
pub open spec fn sections_of_list(t: Seq<u8>, ns: Seq<Node>, i: int) -> Seq<(int, int)>
    decreases ns, i,
{
    if i <= 0 || i > ns.len() {
        Seq::empty()
    } else {
        sections_of_list(t, ns, i - 1) + sections_of(t, ns[i - 1])
    }
}

/// The sections of a subtree, in pre-order: a test-qualified node
/// yields its own range and hides its children; any other node yields
/// whatever its children yield.
pub open spec fn sections_of(t: Seq<u8>, n: Node) -> Seq<(int, int)>
    decreases n, n.children@.len() + 1,
{
    if is_test_node_spec(n) {
        seq![section_of(t, n)]
    } else {
        sections_of_list(t, n.children@, n.children@.len() as int)
    }
}

/// Computes the line on which byte offset `off` falls, from the
/// prefix of the text up to it.
fn offset_prefix_line(text: &[u8], off: usize) -> (r: usize)
    ensures
        r == prefix_line(text@, off as int),
{
    let end = if off > text.len() {
        text.len()
    } else {
        off
    };
    let n = crate::classify::count_prefix_lines(text, end);
    if n == 0 {
        0
    } else {
        n - 1
    }
}

/// Walks the tree and appends one `CodeSection` per outermost
/// test-qualified declaration, translating byte ranges to line ranges
/// from the text.  A qualified node's children are not visited:
/// nested qualified declarations are subsumed by the outermost one.
pub fn find_test_sections(node: &Node, sections: &mut Vec<CodeSection>, text: &[u8])
    ensures
        final(sections)@.map_values(|c: CodeSection| (c.start_line as int, c.end_line as int))
            == old(sections)@.map_values(
            |c: CodeSection| (c.start_line as int, c.end_line as int),
        ) + sections_of(text@, *node),
    decreases *node,
{
    let ghost t = text@;
    let ghost view_sec = |c: CodeSection| (c.start_line as int, c.end_line as int);
    if is_test_node(node) {
        let start_line = offset_prefix_line(text, node.start);
        let end_line = offset_prefix_line(text, node.end);
        sections.push(CodeSection { start_line, end_line });
        proof {
            assert(sections@.map_values(view_sec) =~= old(sections)@.map_values(view_sec)
                + sections_of(t, *node));
        }
        return ;
    }
    let ghost base = sections@.map_values(view_sec);
    let mut i: usize = 0;
    while i < node.children.len()
        invariant
            0 <= i <= node.children@.len(),
            t == text@,
            !is_test_node_spec(*node),
            base == old(sections)@.map_values(
                |c: CodeSection| (c.start_line as int, c.end_line as int),
            ),
            view_sec == (|c: CodeSection| (c.start_line as int, c.end_line as int)),
            sections@.map_values(view_sec) == base + sections_of_list(
                t,
                node.children@,
                i as int,
            ),
        decreases node.children@.len() - i,
    {
        proof {
            assert(sections@.map_values(view_sec) == base + sections_of_list(
                t,
                node.children@,
                i as int,
            ));
        }
        find_test_sections(&node.children[i], sections, text);
        proof {
            assert(sections_of_list(t, node.children@, i as int + 1) == sections_of_list(
                t,
                node.children@,
                i as int,
            ) + sections_of(t, node.children@[i as int]));
            assert(sections@.map_values(view_sec) =~= base + sections_of_list(
                t,
                node.children@,
                i as int + 1,
            ));
        }
        i = i + 1;
    }
    proof {
        assert(sections_of(t, *node) == sections_of_list(
            t,
            node.children@,
            node.children@.len() as int,
        ));
    }
}

// ---------------------------------------------------------------------
// Membership materialization
// ---------------------------------------------------------------------

/// Whether a line lies in one of the sections, each clamped to the
/// last line of the text.
pub open spec fn line_in_sections(secs: Seq<(int, int)>, line: int, total: int) -> bool {
    exists|k: int|
        0 <= k < secs.len() && (#[trigger] secs[k]).0 <= line && line <= clamp_line(
            secs[k].1,
            total,
        )
}

/// An end line clamped to the last line.
pub open spec fn clamp_line(end: int, total: int) -> int {
    if end > total - 1 {
        total - 1
    } else {
        end
    }
}

/// The per-line test membership of a text under a parsed tree: line
/// `i` is test code exactly when some outermost test-qualified
/// declaration's line range covers it.
pub open spec fn test_mask_spec(t: Seq<u8>, root: Node) -> Seq<bool> {
    Seq::new(line_count(t) as nat, |i: int| line_in_sections(sections_of(t, root), i, line_count(t)))
}

/// Materializes the test sections of a parsed tree into one boolean
/// per line: `true` on every line of every outermost test-qualified
/// declaration, `false` elsewhere.
pub fn classify_lines(text: &[u8], root: &Node) -> (r: Vec<bool>)
    ensures
        r@.len() == line_count(text@),
        forall|i: int|
            0 <= i < r@.len() ==> r@[i] == line_in_sections(
                sections_of(text@, *root),
                i,
                line_count(text@),
            ),
{
    let ghost t = text@;
    let mut sections: Vec<CodeSection> = Vec::new();
    find_test_sections(root, &mut sections, text);
    let ghost secs = sections_of(t, *root);
    let ghost view_sec = |c: CodeSection| (c.start_line as int, c.end_line as int);
    proof {
        assert(Seq::<CodeSection>::empty().map_values(view_sec) =~= Seq::<(int, int)>::empty());
        assert(sections@.map_values(view_sec) == secs);
        assert(sections@.len() == secs.len());
    }
    let total = crate::classify::count_lines(text);
    let mut mask: Vec<bool> = Vec::new();
    let mut i: usize = 0;
    while i < total
        invariant
            mask@.len() == i <= total,
            forall|k: int| 0 <= k < i ==> mask@[k] == false,
        decreases total - i,
    {
        mask.push(false);
        i = i + 1;
    }
    if total == 0 {
        proof {
            assert(mask@.len() == line_count(t));
        }
        return mask;
    }
    let mut si: usize = 0;
    while si < sections.len()
        invariant
            0 <= si <= sections@.len(),
            t == text@,
            total == line_count(t),
            total > 0,
            secs == sections_of(t, *root),
            view_sec == (|c: CodeSection| (c.start_line as int, c.end_line as int)),
            sections@.map_values(view_sec) == secs,
            sections@.len() == secs.len(),
            mask@.len() == total,
            forall|k: int|
                0 <= k < total ==> mask@[k] == line_in_sections(
                    secs.take(si as int),
                    k,
                    total as int,
                ),
        decreases sections@.len() - si,
    {
        let sec = &sections[si];
        let end = if sec.end_line > total - 1 {
            total - 1
        } else {
            sec.end_line
        };
        proof {
            assert(secs[si as int] == view_sec(sections@[si as int]));
            assert(secs[si as int].0 == sec.start_line as int);
            assert(secs[si as int].1 == sec.end_line as int);
            assert(end as int == clamp_line(secs[si as int].1, total as int));
        }
        let mut j: usize = sec.start_line;
        while j <= end
            invariant
                sec.start_line <= j <= end + 1 || j == sec.start_line,
                end < total,
                sec == sections@[si as int],
                si < sections@.len(),
                t == text@,
                total == line_count(t),
                total > 0,
                secs == sections_of(t, *root),
                view_sec == (|c: CodeSection| (c.start_line as int, c.end_line as int)),
                sections@.map_values(view_sec) == secs,
                sections@.len() == secs.len(),
                end as int == clamp_line(secs[si as int].1, total as int),
                secs[si as int].0 == sec.start_line as int,
                mask@.len() == total,
                forall|k: int|
                    sec.start_line <= k < j ==> mask@[k] == true,
                forall|k: int|
                    0 <= k < total && !(sec.start_line <= k < j) ==> mask@[k] == line_in_sections(
                        secs.take(si as int),
                        k,
                        total as int,
                    ),
            decreases end + 1 - j,
        {
            mask.set(j, true);
            j = j + 1;
        }
        proof {
            assert(secs.take(si as int + 1).drop_last() =~= secs.take(si as int));
            assert(secs.take(si as int + 1).last() == secs[si as int]);
            assert forall|k: int| 0 <= k < total implies mask@[k] == line_in_sections(
                secs.take(si as int + 1),
                k,
                total as int,
            ) by {
                let pre = secs.take(si as int);
                let post = secs.take(si as int + 1);
                if sec.start_line <= k && k <= end {
                    assert(post[si as int] == secs[si as int]);
                    assert(line_in_sections(post, k, total as int));
                    assert(mask@[k] == true);
                } else {
                    // the new section does not cover k, so membership
                    // under `post` is membership under `pre`
                    assert(mask@[k] == line_in_sections(pre, k, total as int));
                    if line_in_sections(post, k, total as int) {
                        let w = choose|w: int|
                            0 <= w < post.len() && (#[trigger] post[w]).0 <= k && k <= clamp_line(
                                post[w].1,
                                total as int,
                            );
                        if w < si as int {
                            assert(pre[w] == post[w]);
                            assert(line_in_sections(pre, k, total as int));
                        } else {
                            assert(post[w] == secs[si as int]);
                            assert(false);
                        }
                    }
                    if line_in_sections(pre, k, total as int) {
                        let w = choose|w: int|
                            0 <= w < pre.len() && (#[trigger] pre[w]).0 <= k && k <= clamp_line(
                                pre[w].1,
                                total as int,
                            );
                        assert(post[w] == pre[w]);
                        assert(line_in_sections(post, k, total as int));
                    }
                }
            }
        }
        si = si + 1;
    }
    proof {
        assert(secs.take(secs.len() as int) =~= secs);
    }
    mask
}

} // verus!
