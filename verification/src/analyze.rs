//! The statistics reducer: folds the per-line categories and the
//! per-line test membership of one file into its `FileStats` record.

use vstd::prelude::*;
use crate::classify::{
    analyze_lines, classify_at, compute_line_stats, count_type, line_count, tally_of, Token,
};
use crate::detect::{classify_lines, line_in_sections, sections_of, Node};
use crate::stats::{file_wf, tally_add, FileModel, FileStats, LineType};

verus! {

/// The categories of every line of a text under a token list.
pub open spec fn line_types_spec(t: Seq<u8>, toks: Seq<Token>) -> Seq<LineType> {
    Seq::new(line_count(t) as nat, |i: int| classify_at(t, toks, i))
}

/// The test membership of every line of a text under a parsed tree.
pub open spec fn test_mask_spec(t: Seq<u8>, root: Node) -> Seq<bool> {
    Seq::new(
        line_count(t) as nat,
        |i: int| line_in_sections(sections_of(t, root), i, line_count(t)),
    )
}

/// The categories of the lines whose mask entry equals `keep`, in
/// order.
pub open spec fn select(types: Seq<LineType>, mask: Seq<bool>, keep: bool) -> Seq<LineType>
    recommends
        types.len() == mask.len(),
    decreases types.len(),
{
    if types.len() == 0 || types.len() != mask.len() {
        Seq::empty()
    } else {
        let rest = select(types.drop_last(), mask.drop_last(), keep);
        if mask.last() == keep {
            rest.push(types.last())
        } else {
            rest
        }
    }
}

/// What the analysis of one file returns: the total tally over all
/// lines, and the tallies over the production and the test selection,
/// each reporting its own length as its line count.
pub open spec fn analyze_spec(path: Seq<char>, t: Seq<u8>, toks: Seq<Token>, root: Node) -> FileModel {
    let types = line_types_spec(t, toks);
    let mask = test_mask_spec(t, root);
    let prod = select(types, mask, false);
    let test = select(types, mask, true);
    FileModel {
        path: path,
        total: tally_of(types, types.len() as int),
        production: tally_of(prod, prod.len() as int),
        test: tally_of(test, test.len() as int),
    }
}

/// The two selections partition the lines: their lengths add to the
/// whole, and so does each category's count.
pub proof fn lemma_select_partition(types: Seq<LineType>, mask: Seq<bool>)
    requires
        types.len() == mask.len(),
    ensures
        select(types, mask, false).len() + select(types, mask, true).len() == types.len(),
        forall|c: LineType|
            count_type(select(types, mask, false), c) + count_type(select(types, mask, true), c)
                == #[trigger] count_type(types, c),
    decreases types.len(),
{
    if types.len() > 0 {
        lemma_select_partition(types.drop_last(), mask.drop_last());
        assert forall|c: LineType|
            count_type(select(types, mask, false), c) + count_type(select(types, mask, true), c)
                == #[trigger] count_type(types, c) by {
            let pf = select(types.drop_last(), mask.drop_last(), false);
            let pt = select(types.drop_last(), mask.drop_last(), true);
            assert(count_type(pf, c) + count_type(pt, c) == count_type(types.drop_last(), c));
            assert(count_type(types, c) == count_type(types.drop_last(), c) + if types.last() == c {
                1int
            } else {
                0
            });
            if mask.last() == false {
                assert(select(types, mask, false) == pf.push(types.last()));
                crate::classify::lemma_count_type_push(pf, types.last(), c);
                assert(select(types, mask, true) == pt);
            } else {
                assert(select(types, mask, true) == pt.push(types.last()));
                crate::classify::lemma_count_type_push(pt, types.last(), c);
                assert(select(types, mask, false) == pf);
            }
        }
    }
}

/// A file's total tally is the production and test tallies added: the
/// two selections partition its lines.
pub proof fn lemma_analyze_partition(path: Seq<char>, t: Seq<u8>, toks: Seq<Token>, root: Node)
    ensures
        file_wf(analyze_spec(path, t, toks, root)),
{
    let types = line_types_spec(t, toks);
    let mask = test_mask_spec(t, root);
    lemma_select_partition(types, mask);
    crate::classify::lemma_count_partition(types);
    crate::classify::lemma_count_partition(select(types, mask, false));
    crate::classify::lemma_count_partition(select(types, mask, true));
}

/// Analyzes one file's content: paints every line with its category,
/// marks the lines of the outermost test-qualified declarations, and
/// reduces both to one record.  An empty text yields all-zero counts.
pub fn analyze_content(path: String, text: &[u8], tokens: &Vec<Token>, root: &Node) -> (r:
    FileStats)
    ensures
        r@ == analyze_spec(path@, text@, tokens@, *root),
        file_wf(r@),
{
    let ghost t = text@;
    let types = analyze_lines(text, tokens);
    let mask = classify_lines(text, root);
    proof {
        assert(types@ =~= line_types_spec(t, tokens@));
        assert(mask@ =~= test_mask_spec(t, *root));
    }
    let total_lines = types.len();
    let total = compute_line_stats(types.as_slice(), total_lines);
    let mut prod_types: Vec<LineType> = Vec::new();
    let mut test_types: Vec<LineType> = Vec::new();
    let mut i: usize = 0;
    while i < total_lines
        invariant
            0 <= i <= total_lines,
            total_lines == types@.len(),
            types@.len() == mask@.len(),
            prod_types@ == select(types@.take(i as int), mask@.take(i as int), false),
            test_types@ == select(types@.take(i as int), mask@.take(i as int), true),
        decreases total_lines - i,
    {
        proof {
            assert(types@.take(i as int + 1).drop_last() =~= types@.take(i as int));
            assert(mask@.take(i as int + 1).drop_last() =~= mask@.take(i as int));
            assert(types@.take(i as int + 1).last() == types@[i as int]);
            assert(mask@.take(i as int + 1).last() == mask@[i as int]);
        }
        if mask[i] {
            test_types.push(types[i]);
        } else {
            prod_types.push(types[i]);
        }
        i = i + 1;
    }
    proof {
        assert(types@.take(types@.len() as int) =~= types@);
        assert(mask@.take(mask@.len() as int) =~= mask@);
    }
    let prod_len = prod_types.len();
    let test_len = test_types.len();
    let production = compute_line_stats(prod_types.as_slice(), prod_len);
    let test = compute_line_stats(test_types.as_slice(), test_len);
    let r = FileStats { path, total, production, test };
    proof {
        lemma_analyze_partition(r.path@, t, tokens@, *root);
    }
    r
}

} // verus!
