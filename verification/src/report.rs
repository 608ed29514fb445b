//! The text of a duplicate report: one block for each group.

use vstd::prelude::*;
use vstd::string::StringExecFns;

verus! {

/// The paths of a group, each on a line of its own.
pub open spec fn path_lines(paths: Seq<Seq<char>>) -> Seq<char>
    decreases paths.len(),
{
    if paths.len() == 0 {
        Seq::empty()
    } else {
        path_lines(paths.drop_last()) + paths.last() + "\n"@
    }
}

/// The block of one group: the heading line, the group's paths one to a
/// line, and an empty line that closes the block.
pub open spec fn group_block(group: Seq<Seq<char>>) -> Seq<char> {
    "Duplicate images:\n"@ + path_lines(group) + "\n"@
}

/// The blocks of all groups, one after the other.
pub open spec fn report_text(groups: Seq<Seq<Seq<char>>>) -> Seq<char>
    decreases groups.len(),
{
    if groups.len() == 0 {
        Seq::empty()
    } else {
        report_text(groups.drop_last()) + group_block(groups.last())
    }
}

/// The text of the report on `groups`.
pub fn render_report(groups: &Vec<Vec<String>>) -> (text: String)
    ensures
        text@ == report_text(groups.deep_view()),
{
    let ghost all = groups.deep_view();
    let mut text = String::new();
    let mut g: usize = 0;
    while g < groups.len()
        invariant
            g <= groups.len(),
            all == groups.deep_view(),
            text@ == report_text(all.take(g as int)),
        decreases groups.len() - g,
    {
        let group = &groups[g];
        let ghost members = group.deep_view();
        let ghost before = text@;
        text.append("Duplicate images:\n");
        let mut p: usize = 0;
        while p < group.len()
            invariant
                p <= group.len(),
                members == group.deep_view(),
                text@ == before + "Duplicate images:\n"@ + path_lines(members.take(p as int)),
            decreases group.len() - p,
        {
            proof {
                assert(members.take(p + 1).drop_last() == members.take(p as int));
                assert(members.take(p + 1).last() == group[p as int]@);
            }
            let ghost so_far = text@;
            text.append(group[p].as_str());
            text.append("\n");
            assert(text@ == before + "Duplicate images:\n"@ + path_lines(members.take(p + 1))) by {
                let head = before + "Duplicate images:\n"@;
                let lines = path_lines(members.take(p as int));
                assert(text@ == ((head + lines) + group[p as int]@) + "\n"@);
                assert(((head + lines) + group[p as int]@) + "\n"@ == head + ((lines
                    + group[p as int]@) + "\n"@));
            }
            p = p + 1;
        }
        text.append("\n");
        proof {
            assert(members.take(group.len() as int) == members);
            assert(all.take(g + 1).drop_last() == all.take(g as int));
            assert(all.take(g + 1).last() == members);
            assert(text@ == before + (("Duplicate images:\n"@ + path_lines(members)) + "\n"@));
        }
        g = g + 1;
    }
    assert(all.take(groups.len() as int) == all);
    text
}

} // verus!
