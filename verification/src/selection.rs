//! The selection set: the names a user has checked, owned by the caller and
//! toggled by the multi-select list. Modelled as a finite set of names.

use vstd::prelude::*;

use crate::order::lemma_names_of_remove;
use crate::order::names_of;

verus! {

broadcast use vstd::set::group_set_axioms;

/// A set of selected names, stored without duplicates.
pub struct SelectionSet {
    items: Vec<String>,
}

/// The selection after toggling `x`: present names leave, absent names enter.
pub open spec fn toggled(s: Set<Seq<char>>, x: Seq<char>) -> Set<Seq<char>> {
    if s.contains(x) {
        s.remove(x)
    } else {
        s.insert(x)
    }
}

/// Law: toggling the same name twice returns a selection to its original state.
pub proof fn lemma_toggle_involution(s: Set<Seq<char>>, x: Seq<char>)
    ensures
        toggled(toggled(s, x), x) == s,
{
    if s.contains(x) {
        assert(s.remove(x).insert(x) =~= s);
    } else {
        assert(s.insert(x).remove(x) =~= s);
    }
}

/// The first name of `names`, in order, that is a member of `s`.
pub open spec fn first_selected(names: Seq<Seq<char>>, s: Set<Seq<char>>) -> Option<Seq<char>>
    decreases names.len(),
{
    if names.len() == 0 {
        None
    } else if s.contains(names[0]) {
        Some(names[0])
    } else {
        first_selected(names.drop_first(), s)
    }
}

/// Removing the entry at `i` from a duplicate-free sequence removes exactly
/// that one name from the set of entries.
proof fn lemma_remove_to_set(s: Seq<Seq<char>>, i: int)
    requires
        s.no_duplicates(),
        0 <= i < s.len(),
    ensures
        s.remove(i).no_duplicates(),
        s.remove(i).to_set() =~= s.to_set().remove(s[i]),
{
    s.remove_ensures(i);
    let r = s.remove(i);
    assert forall|p: int, q: int| 0 <= p < q < r.len() implies r[p] != r[q] by {
        let sp: int = if p < i {
            p
        } else {
            p + 1
        };
        let sq: int = if q < i {
            q
        } else {
            q + 1
        };
        assert(r[p] == s[sp]);
        assert(r[q] == s[sq]);
    }
    assert forall|x: Seq<char>| r.to_set().contains(x) <==> s.to_set().remove(s[i]).contains(
        x,
    ) by {
        if r.contains(x) {
            let j = choose|j: int| 0 <= j < r.len() && r[j] == x;
            let sj: int = if j < i {
                j
            } else {
                j + 1
            };
            assert(s[sj] == x);
            assert(s.contains(x));
            assert(x != s[i]);
        }
        if s.contains(x) && x != s[i] {
            let k = choose|k: int| 0 <= k < s.len() && s[k] == x;
            let rk: int = if k < i {
                k
            } else {
                k - 1
            };
            assert(r[rk] == x);
            assert(r.contains(x));
        }
    }
}

/// Appending a fresh name to a duplicate-free sequence inserts exactly that
/// name into the set of entries.
proof fn lemma_push_to_set(s: Seq<Seq<char>>, x: Seq<char>)
    requires
        s.no_duplicates(),
        !s.contains(x),
    ensures
        s.push(x).no_duplicates(),
        s.push(x).to_set() =~= s.to_set().insert(x),
{
    let r = s.push(x);
    assert forall|y: Seq<char>| r.to_set().contains(y) <==> s.to_set().insert(x).contains(y) by {
        if r.contains(y) {
            let j = choose|j: int| 0 <= j < r.len() && r[j] == y;
            if j < s.len() {
                assert(s[j] == y);
                assert(s.contains(y));
            } else {
                assert(y == x);
            }
        }
        if s.contains(y) {
            let k = choose|k: int| 0 <= k < s.len() && s[k] == y;
            assert(r[k] == y);
            assert(r.contains(y));
        }
        if y == x {
            assert(r[s.len() as int] == x);
            assert(r.contains(y));
        }
    }
}

impl View for SelectionSet {
    type V = Set<Seq<char>>;

    /// A selection is viewed as the set of its names.
    closed spec fn view(&self) -> Set<Seq<char>> {
        names_of(self.items@).to_set()
    }
}

impl SelectionSet {
    /// The views of the stored names, in storage order.
    pub closed spec fn names(&self) -> Seq<Seq<char>> {
        names_of(self.items@)
    }

    /// Well-formed: no name is stored twice.
    pub closed spec fn wf(&self) -> bool {
        self.names().no_duplicates()
    }

    /// An empty selection.
    pub fn new() -> (s: SelectionSet)
        ensures
            s.wf(),
            s@ == Set::<Seq<char>>::empty(),
    {
        let s = SelectionSet { items: Vec::new() };
        proof {
            assert(s@ =~= Set::<Seq<char>>::empty());
        }
        s
    }

    /// A selection pre-checked with the current choice, if there is one:
    /// exactly that one entry starts out selected.
    pub fn seeded(current: &Option<String>) -> (s: SelectionSet)
        ensures
            s.wf(),
            match current {
                Some(m) => s@ == Set::<Seq<char>>::empty().insert(m@),
                None => s@ == Set::<Seq<char>>::empty(),
            },
    {
        let mut items: Vec<String> = Vec::new();
        match current {
            Some(m) => {
                items.push(m.clone());
            },
            None => {},
        }
        let s = SelectionSet { items };
        proof {
            match current {
                Some(m) => {
                    assert(s.names() =~= seq![m@]);
                    assert(s.names()[0] == m@);
                    assert forall|y: Seq<char>| s.names().contains(y) <==> y == m@ by {
                        if s.names().contains(y) {
                            let j = choose|j: int|
                                0 <= j < s.names().len() && s.names()[j] == y;
                            assert(j == 0);
                        }
                        if y == m@ {
                            assert(s.names().contains(y));
                        }
                    }
                    assert(s@ =~= Set::<Seq<char>>::empty().insert(m@));
                },
                None => {
                    assert(s@ =~= Set::<Seq<char>>::empty());
                },
            }
        }
        s
    }

    /// Whether `name` is currently selected.
    pub fn contains(&self, name: &String) -> (r: bool)
        ensures
            r == self@.contains(name@),
    {
        let n = self.items.len();
        let mut i: usize = 0;
        while i < n
            invariant
                i <= n,
                n == self.items@.len(),
                forall|j: int| 0 <= j < i ==> self.items@[j]@ != name@,
            decreases n - i,
        {
            if self.items[i] == *name {
                assert(self.names()[i as int] == name@);
                assert(self.names().contains(name@));
                return true;
            }
            i = i + 1;
        }
        proof {
            if self.names().contains(name@) {
                let j = choose|j: int| 0 <= j < self.names().len() && self.names()[j] == name@;
                assert(self.items@[j]@ == name@);
            }
        }
        false
    }

    /// How many names are selected.
    pub fn len(&self) -> (n: usize)
        requires
            self.wf(),
        ensures
            n as nat == self@.len(),
    {
        proof {
            self.names().unique_seq_to_set();
        }
        self.items.len()
    }

    /// Toggles `name`: removes it when present, inserts it when absent.
    pub fn toggle(&mut self, name: &String)
        requires
            old(self).wf(),
        ensures
            final(self).wf(),
            final(self)@ == toggled(old(self)@, name@),
    {
        let n = self.items.len();
        let mut i: usize = 0;
        while i < n
            invariant
                i <= n,
                n == self.items@.len(),
                self.items@ == old(self).items@,
                old(self).wf(),
                forall|j: int| 0 <= j < i ==> self.items@[j]@ != name@,
            decreases n - i,
        {
            if self.items[i] == *name {
                proof {
                    assert(self.names()[i as int] == name@);
                    assert(self.names().contains(name@));
                    lemma_names_of_remove(self.items@, i as int);
                    lemma_remove_to_set(self.names(), i as int);
                }
                self.items.remove(i);
                proof {
                    assert(self@ =~= old(self)@.remove(name@));
                }
                return ;
            }
            i = i + 1;
        }
        proof {
            if self.names().contains(name@) {
                let j = choose|j: int| 0 <= j < self.names().len() && self.names()[j] == name@;
                assert(self.items@[j]@ == name@);
            }
            lemma_push_to_set(self.names(), name@);
        }
        let ghost before: Seq<String> = self.items@;
        self.items.push(name.clone());
        proof {
            assert(names_of(self.items@) =~= names_of(before).push(name@));
            assert(self@ =~= old(self)@.insert(name@));
        }
    }

    /// The first name of `order`, in its order, that is selected; `None` when
    /// none of them is.
    pub fn first_in(&self, order: &Vec<String>) -> (r: Option<String>)
        ensures
            match r {
                Some(m) => first_selected(names_of(order@), self@) == Some(m@),
                None => first_selected(names_of(order@), self@) is None,
            },
    {
        let n = order.len();
        let mut i: usize = 0;
        proof {
            assert(names_of(order@).skip(0) =~= names_of(order@));
        }
        while i < n
            invariant
                i <= n,
                n == order@.len(),
                first_selected(names_of(order@), self@) == first_selected(
                    names_of(order@).skip(i as int),
                    self@,
                ),
            decreases n - i,
        {
            proof {
                assert(names_of(order@).skip(i as int)[0] == names_of(order@)[i as int]);
            }
            if self.contains(&order[i]) {
                let picked = order[i].clone();
                return Some(picked);
            }
            proof {
                assert(names_of(order@).skip(i as int).drop_first() =~= names_of(order@).skip(
                    i + 1,
                ));
            }
            i = i + 1;
        }
        proof {
            assert(names_of(order@).skip(n as int).len() == 0);
        }
        None
    }
}

} // verus!
