//! The bottom line of a tab bar: the selected tab is left open, the others are closed by the
//! border's bottom edge.
use vstd::prelude::*;
use crate::strings::push_char;
use vstd::string::StringExecFns;
use crate::style::border::BorderStyle;

verus! {

/// `s` repeated `n` times.
pub open spec fn repeat(s: Seq<char>, n: nat) -> Seq<char>
    decreases n,
{
    if n == 0 {
        seq![]
    } else {
        repeat(s, (n - 1) as nat) + s
    }
}

/// The bottom line under tabs whose labels are `lengths` bytes long, tab `selected` being
/// selected: under the selected tab its bottom corners around blanks, under the others the
/// bottom edge between two connectors; each part is two columns wider than its label.
pub open spec fn tab_line_spec(lengths: Seq<usize>, selected: usize, bottom: Seq<char>, bottom_left: Seq<char>, bottom_right: Seq<char>) -> Seq<char>
    decreases lengths.len(),
{
    if lengths.len() == 0 {
        seq![]
    } else {
        let i = lengths.len() - 1;
        let n = (lengths.last() + 2) as nat;
        tab_line_spec(lengths.drop_last(), selected, bottom, bottom_left, bottom_right) + if i == selected {
            bottom_right + repeat(seq![' '], n) + bottom_left
        } else {
            seq!['┴'] + repeat(bottom, n) + seq!['┴']
        }
    }
}

/// Appends `t` to `s` `n` times.
fn push_repeat(s: &mut String, t: &str, n: usize)
    ensures
        final(s)@ == old(s)@ + repeat(t@, n as nat),
{
    let mut k: usize = 0;
    while k < n
        invariant
            k <= n,
            s@ == old(s)@ + repeat(t@, k as nat),
        decreases n - k,
    {
        s.append(t);
        k = k + 1;
        proof {
            assert(s@ =~= old(s)@ + repeat(t@, k as nat));
        }
    }
}

/// A row of tabs over a bottom line that opens under the selected tab.
pub struct Tabs;

impl Tabs {
    /// Builds the bottom line of a tab bar whose labels are `lengths` bytes long, with tab
    /// `selected` selected, drawn with `style`.
    pub fn tab_line(lengths: &Vec<usize>, selected: usize, style: &BorderStyle) -> (r: String)
        requires
            forall|i: int| 0 <= i < lengths@.len() ==> #[trigger] lengths@[i] + 2 <= usize::MAX,
        ensures
            r@ == tab_line_spec(lengths@, selected, style.bottom@, style.bottom_left@, style.bottom_right@),
    {
        let connector = '┴';
        let mut line = String::new();
        let mut i: usize = 0;
        while i < lengths.len()
            invariant
                i <= lengths@.len(),
                connector == '┴',
                forall|k: int| 0 <= k < lengths@.len() ==> #[trigger] lengths@[k] + 2 <= usize::MAX,
                line@ == tab_line_spec(lengths@.take(i as int), selected, style.bottom@, style.bottom_left@, style.bottom_right@),
            decreases lengths@.len() - i,
        {
            proof {
                assert(lengths@.take(i + 1).drop_last() =~= lengths@.take(i as int));
                assert(lengths@.take(i + 1).last() == lengths@[i as int]);
                assert(lengths@[i as int] + 2 <= usize::MAX);
            }
            let ghost before = line@;
            let n = lengths[i] + 2;
            if i == selected {
                line.append(style.bottom_right.as_str());
                push_repeat(&mut line, " ", n);
                line.append(style.bottom_left.as_str());
                proof {
                    reveal_strlit(" ");
                    assert(" "@ =~= seq![' ']);
                    assert(line@ =~= before + (style.bottom_right@ + repeat(seq![' '], n as nat) + style.bottom_left@));
                }
            } else {
                push_char(&mut line, connector);
                let ghost l1 = line@;
                push_repeat(&mut line, style.bottom.as_str(), n);
                let ghost l2 = line@;
                push_char(&mut line, connector);
                proof {
                    assert(l1 == before.push('┴'));
                    assert(before.push('┴') =~= before + seq!['┴']);
                    assert(l2 == l1 + repeat(style.bottom@, n as nat));
                    assert(line@ == l2.push('┴'));
                    assert(l2.push('┴') =~= l2 + seq!['┴']);
                    assert(line@ =~= before + (seq!['┴'] + repeat(style.bottom@, n as nat) + seq!['┴']));
                }
            }
            i = i + 1;
        }
        proof {
            assert(lengths@.take(i as int) =~= lengths@);
        }
        line
    }
}

} // verus!
