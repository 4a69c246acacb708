//! The multi-select list: candidates are shown sorted by name, and one input
//! line either quits, toggles an in-range index, silently ignores an
//! out-of-range number, or is reported as invalid.

use vstd::multiset::Multiset;
use vstd::prelude::*;
use vstd::string::StringExecFns;

use crate::input::eq_char;
use crate::input::numeral_of;
use crate::input::parse_usize;
use crate::input::parseable;
use crate::input::parsed_value;
use crate::input::usize_to_decimal;
use crate::order::lemma_lex_le_antisym;
use crate::order::lemma_lex_le_total;
use crate::order::lemma_lex_le_trans;
use crate::order::lemma_names_of_remove;
use crate::order::lex_le;
use crate::order::names_of;
use crate::order::sorted_names;
use crate::order::str_le;
use crate::selection::toggled;
use crate::selection::SelectionSet;

verus! {

broadcast use {vstd::seq_lib::group_to_multiset_ensures, vstd::multiset::group_multiset_axioms};

/// What one line of input did to the multi-select list.
#[derive(Clone, Copy, Debug, PartialEq, Eq, Structural)]
pub enum SelectOutcome {
    /// The session ends; the selection reflects all applied toggles.
    Quit,
    /// An in-range index: that candidate's membership was toggled.
    Toggled,
    /// A number out of range: silently ignored, the selection is unchanged.
    Ignored,
    /// Anything else: reported as invalid, the selection is unchanged.
    Invalid,
}

/// The candidate names sorted ascending, regardless of their input order:
/// the rendered order of the list.
pub fn sorted_candidates(programs: &Vec<String>) -> (r: Vec<String>)
    ensures
        sorted_names(names_of(r@)),
        names_of(r@).to_multiset() == names_of(programs@).to_multiset(),
{
    let mut work: Vec<String> = Vec::new();
    let mut i: usize = 0;
    while i < programs.len()
        invariant
            i <= programs@.len(),
            names_of(work@) =~= names_of(programs@).take(i as int),
        decreases programs@.len() - i,
    {
        let ghost work_before: Seq<String> = work@;
        work.push(programs[i].clone());
        proof {
            assert(names_of(work@) =~= names_of(work_before).push(programs@[i as int]@));
            assert(names_of(programs@).take(i + 1) =~= names_of(programs@).take(i as int).push(
                names_of(programs@)[i as int],
            ));
        }
        i = i + 1;
    }
    proof {
        assert(names_of(programs@).take(programs@.len() as int) =~= names_of(programs@));
        assert(names_of(work@).to_multiset() == names_of(programs@).to_multiset());
    }
    let ghost target: Multiset<Seq<char>> = names_of(programs@).to_multiset();
    let mut out: Vec<String> = Vec::new();
    proof {
        assert(names_of(out@) =~= Seq::<Seq<char>>::empty());
        assert(names_of(out@).to_multiset().add(names_of(work@).to_multiset()) =~= target);
    }
    while work.len() > 0
        invariant
            sorted_names(names_of(out@)),
            names_of(out@).to_multiset().add(names_of(work@).to_multiset()) == target,
            forall|p: int, q: int|
                0 <= p < out@.len() && 0 <= q < work@.len() ==> lex_le(
                    names_of(out@)[p],
                    names_of(work@)[q],
                ),
        decreases work@.len(),
    {
        let mut min: usize = 0;
        let mut k: usize = 1;
        proof {
            lemma_lex_le_total(work@[0]@, work@[0]@);
        }
        while k < work.len()
            invariant
                min < k <= work@.len(),
                work@.len() > 0,
                forall|j: int| 0 <= j < k ==> lex_le(work@[min as int]@, work@[j]@),
            decreases work@.len() - k,
        {
            if str_le(&work[k], &work[min]) {
                proof {
                    assert forall|j: int| 0 <= j < k + 1 implies lex_le(
                        work@[k as int]@,
                        work@[j]@,
                    ) by {
                        if j < k {
                            lemma_lex_le_trans(work@[k as int]@, work@[min as int]@, work@[j]@);
                        } else {
                            lemma_lex_le_total(work@[k as int]@, work@[k as int]@);
                        }
                    }
                }
                min = k;
            } else {
                proof {
                    lemma_lex_le_total(work@[k as int]@, work@[min as int]@);
                }
            }
            k = k + 1;
        }
        let ghost out_before: Seq<String> = out@;
        let ghost work_before: Seq<String> = work@;
        let ghost x: Seq<char> = work@[min as int]@;
        let picked = work.remove(min);
        out.push(picked);
        proof {
            assert(names_of(out@) =~= names_of(out_before).push(x));
            lemma_names_of_remove(work_before, min as int);
            assert(names_of(work@) == names_of(work_before).remove(min as int));
            assert(names_of(work_before)[min as int] == x);
            assert(names_of(out@).to_multiset() =~= names_of(out_before).to_multiset().insert(x));
            assert(names_of(work@).to_multiset() =~= names_of(work_before).to_multiset().remove(
                x,
            ));
            assert(names_of(work_before).contains(x));
            assert(names_of(work_before).to_multiset().count(x) > 0);
            assert(names_of(out@).to_multiset().add(names_of(work@).to_multiset()) =~= names_of(
                out_before,
            ).to_multiset().add(names_of(work_before).to_multiset()));
            assert forall|p: int, q: int|
                0 <= p < out@.len() && 0 <= q < work@.len() implies lex_le(
                names_of(out@)[p],
                names_of(work@)[q],
            ) by {
                let wq: int = if q < min {
                    q
                } else {
                    q + 1
                };
                names_of(work_before).remove_ensures(min as int);
                assert(names_of(work@)[q] == names_of(work_before)[wq]);
                if p < out_before.len() {
                    assert(lex_le(names_of(out@)[p], names_of(work_before)[wq]));
                } else {
                    assert(names_of(out@)[p] == x);
                    assert(lex_le(x, names_of(work_before)[wq]));
                }
            }
            assert(sorted_names(names_of(out@)));
        }
    }
    proof {
        assert(names_of(work@).to_multiset() =~= Multiset::<Seq<char>>::empty());
        assert(names_of(out@).to_multiset().add(Multiset::<Seq<char>>::empty()) =~= names_of(
            out@,
        ).to_multiset());
    }
    out
}

/// Law: a sorted row list is fully determined by which names it holds — two
/// sorted sequences with the same names, multiplicity included, are equal.
/// With the contract of `sorted_candidates`, the rendered order of the list
/// therefore does not depend on the order of the caller's candidates.
pub proof fn lemma_sorted_rows_unique(a: Seq<Seq<char>>, b: Seq<Seq<char>>)
    requires
        sorted_names(a),
        sorted_names(b),
        a.to_multiset() == b.to_multiset(),
    ensures
        a == b,
    decreases a.len(),
{
    if a.len() == 0 {
        assert(b.len() == 0);
        assert(a =~= b);
    } else {
        assert(a.to_multiset().len() == a.len());
        assert(b.to_multiset().len() == b.len());
        assert(b.len() == a.len());
        assert(a.contains(a[0]));
        assert(b.to_multiset().count(a[0]) > 0);
        assert(b.contains(a[0]));
        let j = choose|j: int| 0 <= j < b.len() && b[j] == a[0];
        if j > 0 {
            assert(lex_le(b[0], b[j]));
        } else {
            lemma_lex_le_total(b[0], b[0]);
        }
        assert(lex_le(b[0], a[0]));
        assert(b.contains(b[0]));
        assert(a.to_multiset().count(b[0]) > 0);
        assert(a.contains(b[0]));
        let k = choose|k: int| 0 <= k < a.len() && a[k] == b[0];
        if k > 0 {
            assert(lex_le(a[0], a[k]));
        } else {
            lemma_lex_le_total(a[0], a[0]);
        }
        assert(lex_le(a[0], b[0]));
        lemma_lex_le_antisym(a[0], b[0]);
        assert(a.remove(0) =~= a.drop_first());
        assert(b.remove(0) =~= b.drop_first());
        assert(a.drop_first().to_multiset() == b.drop_first().to_multiset());
        assert(sorted_names(a.drop_first())) by {
            assert forall|p: int, q: int| 0 <= p < q < a.drop_first().len() implies lex_le(
                a.drop_first()[p],
                a.drop_first()[q],
            ) by {
                assert(a.drop_first()[p] == a[p + 1]);
                assert(a.drop_first()[q] == a[q + 1]);
            }
        }
        assert(sorted_names(b.drop_first())) by {
            assert forall|p: int, q: int| 0 <= p < q < b.drop_first().len() implies lex_le(
                b.drop_first()[p],
                b.drop_first()[q],
            ) by {
                assert(b.drop_first()[p] == b[p + 1]);
                assert(b.drop_first()[q] == b[q + 1]);
            }
        }
        lemma_sorted_rows_unique(a.drop_first(), b.drop_first());
        assert forall|i: int| 0 <= i < a.len() implies a[i] == b[i] by {
            if i > 0 {
                assert(a.drop_first()[i - 1] == b.drop_first()[i - 1]);
            }
        }
        assert(a =~= b);
    }
}

/// The step of the multi-select list on one trimmed input line: `q` quits,
/// a parseable number toggles the candidate at that one-based index when it
/// is in range and is silently ignored otherwise, and any other line is
/// invalid; only an in-range toggle changes the selection.
pub open spec fn select_transition(
    names: Seq<Seq<char>>,
    s: Set<Seq<char>>,
    input: Seq<char>,
) -> (Set<Seq<char>>, SelectOutcome) {
    if input == seq!['q'] {
        (s, SelectOutcome::Quit)
    } else if parseable(input) {
        let n = parsed_value(input);
        if 1 <= n && n <= names.len() {
            (toggled(s, names[n - 1]), SelectOutcome::Toggled)
        } else {
            (s, SelectOutcome::Ignored)
        }
    } else {
        (s, SelectOutcome::Invalid)
    }
}

/// Law: a number out of the one-based range of the displayed list never
/// changes the selection — hence never its size; it is silently ignored.
pub proof fn lemma_out_of_range_unchanged(
    names: Seq<Seq<char>>,
    s: Set<Seq<char>>,
    input: Seq<char>,
)
    requires
        parseable(input),
        !(1 <= parsed_value(input) && parsed_value(input) <= names.len()),
    ensures
        select_transition(names, s, input) == (s, SelectOutcome::Ignored),
{
    if input == seq!['q'] {
        assert(crate::input::digit_body(input) == input);
        assert(crate::input::is_digit(input[0]));
        assert(false);
    }
}

/// Applies one trimmed input line to the selection over the displayed
/// candidates, exactly as `select_transition` says.
pub fn select_step(items: &Vec<String>, sel: &mut SelectionSet, input: &str) -> (out:
    SelectOutcome)
    requires
        old(sel).wf(),
    ensures
        final(sel).wf(),
        final(sel)@ == select_transition(names_of(items@), old(sel)@, input@).0,
        out == select_transition(names_of(items@), old(sel)@, input@).1,
{
    if eq_char(input, 'q') {
        return SelectOutcome::Quit;
    }
    match parse_usize(input) {
        Some(n) => {
            if 1 <= n && n <= items.len() {
                let name = &items[n - 1];
                sel.toggle(name);
                proof {
                    assert(names_of(items@)[n - 1] == name@);
                }
                SelectOutcome::Toggled
            } else {
                SelectOutcome::Ignored
            }
        },
        None => SelectOutcome::Invalid,
    }
}

/// The selection left by a whole interaction session: the input lines are
/// applied in order until one quits or they run out.
pub open spec fn session_result(
    names: Seq<Seq<char>>,
    s: Set<Seq<char>>,
    inputs: Seq<Seq<char>>,
) -> Set<Seq<char>>
    decreases inputs.len(),
{
    if inputs.len() == 0 {
        s
    } else {
        let step = select_transition(names, s, inputs[0]);
        if step.1 == SelectOutcome::Quit {
            s
        } else {
            session_result(names, step.0, inputs.drop_first())
        }
    }
}

/// Runs one multi-select session over the displayed candidates: applies the
/// input lines in order, stopping at the first `q`; the selection then
/// reflects exactly the toggles applied during the session.
pub fn select_session(items: &Vec<String>, sel: &mut SelectionSet, inputs: &Vec<String>)
    requires
        old(sel).wf(),
    ensures
        final(sel).wf(),
        final(sel)@ == session_result(names_of(items@), old(sel)@, names_of(inputs@)),
{
    let ghost all: Seq<Seq<char>> = names_of(inputs@);
    let mut i: usize = 0;
    proof {
        assert(all.skip(0) =~= all);
    }
    while i < inputs.len()
        invariant
            i <= inputs@.len(),
            all == names_of(inputs@),
            sel.wf(),
            session_result(names_of(items@), old(sel)@, all) == session_result(
                names_of(items@),
                sel@,
                all.skip(i as int),
            ),
        decreases inputs@.len() - i,
    {
        let ghost before: Set<Seq<char>> = sel@;
        proof {
            assert(all.skip(i as int)[0] == all[i as int]);
            assert(all[i as int] == inputs@[i as int]@);
            assert(all.skip(i as int).drop_first() =~= all.skip(i + 1));
        }
        let out = select_step(items, sel, inputs[i].as_str());
        match out {
            SelectOutcome::Quit => {
                proof {
                    assert(session_result(names_of(items@), before, all.skip(i as int))
                        == before);
                }
                return ;
            },
            _ => {},
        }
        i = i + 1;
    }
    proof {
        assert(all.skip(inputs@.len() as int).len() == 0);
    }
}

/// Law: a session only ever toggles displayed names: when the starting
/// selection holds only candidate names, so does the selection it leaves.
pub proof fn lemma_session_stays_in_candidates(
    names: Seq<Seq<char>>,
    s: Set<Seq<char>>,
    inputs: Seq<Seq<char>>,
)
    requires
        forall|x: Seq<char>| s.contains(x) ==> names.contains(x),
    ensures
        forall|x: Seq<char>|
            session_result(names, s, inputs).contains(x) ==> names.contains(x),
    decreases inputs.len(),
{
    if inputs.len() > 0 {
        let step = select_transition(names, s, inputs[0]);
        if step.1 != SelectOutcome::Quit {
            assert forall|x: Seq<char>| step.0.contains(x) implies names.contains(x) by {
                if parseable(inputs[0]) {
                    let n = parsed_value(inputs[0]);
                    if 1 <= n && n <= names.len() {
                        if x == names[n - 1] {
                            assert(names.contains(x));
                        }
                    }
                }
            }
            lemma_session_stays_in_candidates(names, step.0, inputs.drop_first());
        }
    }
}

/// The checked or unchecked marker shown before a row's name.
pub open spec fn checkbox(checked: bool) -> Seq<char> {
    if checked {
        "[+]"@
    } else {
        "[ ]"@
    }
}

/// The full text of one rendered list row: its one-based number, its marker —
/// checked exactly when the name is selected — and its name.
pub open spec fn select_row(names: Seq<Seq<char>>, s: Set<Seq<char>>, i: int) -> Seq<char> {
    numeral_of((i + 1) as nat) + " "@ + checkbox(s.contains(names[i])) + " "@ + names[i]
}

/// The rendered rows of the multi-select list, in the displayed order.
pub fn render_select_rows(items: &Vec<String>, sel: &SelectionSet) -> (lines: Vec<String>)
    ensures
        lines@.len() == items@.len(),
        forall|i: int|
            0 <= i < items@.len() ==> lines@[i]@ == select_row(names_of(items@), sel@, i),
{
    let mut lines: Vec<String> = Vec::new();
    let mut i: usize = 0;
    while i < items.len()
        invariant
            i <= items@.len(),
            lines@.len() == i,
            forall|j: int| 0 <= j < i ==> lines@[j]@ == select_row(names_of(items@), sel@, j),
        decreases items@.len() - i,
    {
        let mut line = usize_to_decimal(i + 1);
        line.append(" ");
        let checked = sel.contains(&items[i]);
        line.append(
            if checked {
                "[+]"
            } else {
                "[ ]"
            },
        );
        line.append(" ");
        line.append(items[i].as_str());
        proof {
            assert(names_of(items@)[i as int] == items@[i as int]@);
            assert(line@ =~= select_row(names_of(items@), sel@, i as int));
        }
        lines.push(line);
        i = i + 1;
    }
    lines
}

/// One checked/unchecked marker per displayed row: checked exactly when that
/// row's candidate is selected.
pub fn row_markers(items: &Vec<String>, sel: &SelectionSet) -> (m: Vec<bool>)
    ensures
        m@.len() == items@.len(),
        forall|i: int| 0 <= i < items@.len() ==> m@[i] == sel@.contains(items@[i]@),
{
    let mut m: Vec<bool> = Vec::new();
    let mut i: usize = 0;
    while i < items.len()
        invariant
            i <= items@.len(),
            m@.len() == i,
            forall|j: int| 0 <= j < i ==> m@[j] == sel@.contains(items@[j]@),
        decreases items@.len() - i,
    {
        let checked = sel.contains(&items[i]);
        m.push(checked);
        i = i + 1;
    }
    m
}

} // verus!
