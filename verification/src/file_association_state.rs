//! The file-association settings page: the extensions registered with the
//! system, those selected on the page, and what the last action reported.
use vstd::prelude::*;
use crate::text::{insert_sorted, lex_lt, lemma_lex_transitive, lemma_lex_trichotomy, strictly_sorted, views};

verus! {

/// What the last association action reported.
#[derive(Debug, Clone, PartialEq, Eq)]
pub enum FileAssociationFeedback {
    Applied,
    Removed,
    Error(String),
    SettingsLaunchError(String),
}

/// The state of the file-association settings page. The extension lists
/// are sets, kept in strictly increasing order.
#[derive(Debug)]
pub struct FileAssociationUiState {
    pub initialized: bool,
    pub registered_extensions: Vec<String>,
    pub selected_extensions: Vec<String>,
    pub feedback: Option<FileAssociationFeedback>,
}

/// In a strictly sorted list, every earlier item sorts before every later
/// one.
pub proof fn lemma_sorted_lt(items: Seq<Seq<char>>, i: int, j: int)
    requires
        strictly_sorted(items),
        0 <= i < j < items.len(),
    ensures
        lex_lt(items[i], items[j]),
    decreases j - i,
{
    if j > i + 1 {
        lemma_sorted_lt(items, i + 1, j);
        lemma_lex_transitive(items[i], items[i + 1], items[j]);
    }
}

/// Two strictly sorted lists are equal exactly when they hold the same
/// set of items.
pub proof fn lemma_sorted_lists_equal_sets(a: Seq<Seq<char>>, b: Seq<Seq<char>>)
    requires
        strictly_sorted(a),
        strictly_sorted(b),
    ensures
        (a == b) == (a.to_set() == b.to_set()),
    decreases a.len(),
{
    if a.to_set() == b.to_set() {
        if a.len() == 0 {
            if b.len() > 0 {
                assert(b.to_set().contains(b[0]));
            }
            assert(a =~= b);
        } else {
            assert(a.to_set().contains(a[0]));
            assert(b.len() > 0);
            assert(b.to_set().contains(b[0]));
            let k = choose|k: int| 0 <= k < b.len() && b[k] == a[0];
            let m = choose|m: int| 0 <= m < a.len() && a[m] == b[0];
            if k > 0 {
                lemma_sorted_lt(b, 0, k);
                if m > 0 {
                    lemma_sorted_lt(a, 0, m);
                    lemma_lex_trichotomy(a[0], b[0]);
                } else {
                    lemma_lex_trichotomy(b[0], b[k]);
                }
            }
            assert(a[0] == b[0]);
            let ra = a.drop_first();
            let rb = b.drop_first();
            assert(strictly_sorted(ra)) by {
                assert forall|i: int| 0 <= i < ra.len() - 1 implies lex_lt(#[trigger] ra[i], ra[i + 1]) by {
                    assert(ra[i] == a[i + 1] && ra[i + 1] == a[i + 2]);
                }
            }
            assert(strictly_sorted(rb)) by {
                assert forall|i: int| 0 <= i < rb.len() - 1 implies lex_lt(#[trigger] rb[i], rb[i + 1]) by {
                    assert(rb[i] == b[i + 1] && rb[i + 1] == b[i + 2]);
                }
            }
            assert(ra.to_set() =~= rb.to_set()) by {
                assert forall|x: Seq<char>| ra.to_set().contains(x) implies rb.to_set().contains(x) by {
                    let i = choose|i: int| 0 <= i < ra.len() && ra[i] == x;
                    lemma_sorted_lt(a, 0, i + 1);
                    lemma_lex_trichotomy(a[0], x);
                    assert(a.to_set().contains(x));
                    let j = choose|j: int| 0 <= j < b.len() && b[j] == x;
                    assert(j != 0);
                    assert(rb[j - 1] == x);
                }
                assert forall|x: Seq<char>| rb.to_set().contains(x) implies ra.to_set().contains(x) by {
                    let i = choose|i: int| 0 <= i < rb.len() && rb[i] == x;
                    lemma_sorted_lt(b, 0, i + 1);
                    lemma_lex_trichotomy(b[0], x);
                    assert(b.to_set().contains(x));
                    let j = choose|j: int| 0 <= j < a.len() && a[j] == x;
                    assert(j != 0);
                    assert(ra[j - 1] == x);
                }
            }
            lemma_sorted_lists_equal_sets(ra, rb);
            assert(a =~= seq![a[0]] + ra);
            assert(b =~= seq![b[0]] + rb);
        }
    }
}

impl FileAssociationUiState {
    /// Nothing registered or selected, not yet initialised.
    pub fn new() -> (result: Self)
        ensures
            !result.initialized,
            result.registered_extensions@.len() == 0,
            result.selected_extensions@.len() == 0,
            result.feedback is None,
            result.well_formed(),
    {
        FileAssociationUiState {
            initialized: false,
            registered_extensions: Vec::new(),
            selected_extensions: Vec::new(),
            feedback: None,
        }
    }

    /// Both extension lists are in strictly increasing order.
    pub open spec fn well_formed(&self) -> bool {
        strictly_sorted(views(self.registered_extensions@)) && strictly_sorted(views(self.selected_extensions@))
    }

    /// Whether the selection differs from what is registered.
    pub fn is_dirty(&self) -> (result: bool)
        requires
            self.well_formed(),
        ensures
            result == (views(self.selected_extensions@).to_set() != views(self.registered_extensions@).to_set()),
    {
        proof {
            lemma_sorted_lists_equal_sets(views(self.selected_extensions@), views(self.registered_extensions@));
        }
        if self.selected_extensions.len() != self.registered_extensions.len() {
            return true;
        }
        let mut i: usize = 0;
        while i < self.selected_extensions.len()
            invariant
                self.selected_extensions.len() == self.registered_extensions.len(),
                (views(self.selected_extensions@) == views(self.registered_extensions@)) == (views(
                    self.selected_extensions@,
                ).to_set() == views(self.registered_extensions@).to_set()),
                i <= self.selected_extensions.len(),
                forall|k: int| 0 <= k < i ==> #[trigger] views(self.selected_extensions@)[k] == views(self.registered_extensions@)[k],
            decreases self.selected_extensions.len() - i,
        {
            let a = crate::text::chars_of(&self.selected_extensions[i]);
            let b = crate::text::chars_of(&self.registered_extensions[i]);
            if !crate::text::chars_equal(&a, &b) {
                assert(views(self.selected_extensions@)[i as int] != views(self.registered_extensions@)[i as int]);
                return true;
            }
            i = i + 1;
        }
        assert(views(self.selected_extensions@) =~= views(self.registered_extensions@));
        false
    }

    /// Adds an extension to the selection.
    pub fn select(&mut self, extension: String)
        requires
            old(self).well_formed(),
        ensures
            final(self).well_formed(),
            views(final(self).selected_extensions@).to_set() == views(old(self).selected_extensions@).to_set().insert(extension@),
            final(self).registered_extensions == old(self).registered_extensions,
    {
        insert_sorted(&mut self.selected_extensions, extension);
    }

    /// Records an extension as registered.
    pub fn register(&mut self, extension: String)
        requires
            old(self).well_formed(),
        ensures
            final(self).well_formed(),
            views(final(self).registered_extensions@).to_set() == views(old(self).registered_extensions@).to_set().insert(extension@),
            final(self).selected_extensions == old(self).selected_extensions,
    {
        insert_sorted(&mut self.registered_extensions, extension);
    }
}


/// Removing the item at `i` from a strictly increasing list keeps it so,
/// and removes exactly that item from its set.
proof fn lemma_remove_sorted(before: Seq<Seq<char>>, i: int)
    requires
        strictly_sorted(before),
        0 <= i < before.len(),
    ensures
        strictly_sorted(before.remove(i)),
        before.remove(i).to_set() == before.to_set().remove(before[i]),
{
    let item = before[i];
    let after = before.remove(i);
    assert forall|k: int| 0 <= k < after.len() - 1 implies lex_lt(#[trigger] after[k], after[k + 1]) by {
        if k + 1 < i {
            assert(after[k] == before[k] && after[k + 1] == before[k + 1]);
        } else if k + 1 == i {
            lemma_sorted_lt(before, k, k + 2);
        } else {
            assert(after[k] == before[k + 1] && after[k + 1] == before[k + 2]);
        }
    }
    assert(after.to_set() =~= before.to_set().remove(item)) by {
        assert forall|x: Seq<char>| after.to_set().contains(x) implies before.to_set().remove(item).contains(x) by {
            let k = choose|k: int| 0 <= k < after.len() && after[k] == x;
            if k < i {
                assert(before[k] == x);
                lemma_sorted_lt(before, k, i);
                lemma_lex_trichotomy(before[k], before[i]);
            } else {
                assert(before[k + 1] == x);
                lemma_sorted_lt(before, i, k + 1);
                lemma_lex_trichotomy(before[i], before[k + 1]);
            }
        }
        assert forall|x: Seq<char>| before.to_set().remove(item).contains(x) implies after.to_set().contains(x) by {
            let k = choose|k: int| 0 <= k < before.len() && before[k] == x;
            if k < i {
                assert(after[k] == x);
            } else {
                assert(k != i);
                assert(after[k - 1] == x);
            }
        }
    }
}

/// Removes `item` from a strictly increasing list, when it is there.
pub fn remove_sorted(items: &mut Vec<String>, item: &str)
    requires
        strictly_sorted(views(old(items)@)),
    ensures
        strictly_sorted(views(final(items)@)),
        views(final(items)@).to_set() == views(old(items)@).to_set().remove(item@),
{
    let key = crate::text::chars_of(item);
    let ghost before = views(items@);
    let mut i: usize = 0;
    while i < items.len()
        invariant
            i <= items.len(),
            key@ == item@,
            views(items@) == before,
            before == views(old(items)@),
            strictly_sorted(before),
            forall|k: int| 0 <= k < i ==> #[trigger] before[k] != item@,
        decreases items.len() - i,
    {
        if crate::text::chars_equal(&crate::text::chars_of(items[i].as_str()), &key) {
            assert(before[i as int] == item@);
            proof {
                lemma_remove_sorted(before, i as int);
            }
            items.remove(i);
            assert(views(items@) =~= before.remove(i as int));
            return;
        }
        i = i + 1;
    }
    assert(before.to_set().remove(item@) =~= before.to_set());
}

impl FileAssociationUiState {
    /// Selects every extension of `extensions`, or deselects them all, and
    /// clears the last report.
    pub fn set_group(&mut self, extensions: &Vec<String>, selected: bool)
        requires
            old(self).well_formed(),
        ensures
            final(self).well_formed(),
            selected ==> views(final(self).selected_extensions@).to_set() == views(old(self).selected_extensions@).to_set()
                + views(extensions@).to_set(),
            !selected ==> views(final(self).selected_extensions@).to_set() == views(old(self).selected_extensions@).to_set()
                - views(extensions@).to_set(),
            final(self).registered_extensions == old(self).registered_extensions,
            final(self).initialized == old(self).initialized,
            final(self).feedback is None,
    {
        let ghost start = views(self.selected_extensions@).to_set();
        let mut i: usize = 0;
        while i < extensions.len()
            invariant
                i <= extensions.len(),
                self.well_formed(),
                self.registered_extensions == old(self).registered_extensions,
                self.initialized == old(self).initialized,
                start == views(old(self).selected_extensions@).to_set(),
                selected ==> views(self.selected_extensions@).to_set() == start + views(extensions@).take(i as int).to_set(),
                !selected ==> views(self.selected_extensions@).to_set() == start - views(extensions@).take(i as int).to_set(),
            decreases extensions.len() - i,
        {
            let ghost seen = views(extensions@).take(i as int);
            let ghost x = extensions@[i as int]@;
            assert(views(extensions@).take(i + 1) =~= seen.push(x));
            proof {
                seen.lemma_push_to_set_commute(x);
            }
            if selected {
                insert_sorted(&mut self.selected_extensions, extensions[i].clone());
                assert(start + seen.push(x).to_set() =~= (start + seen.to_set()).insert(x));
            } else {
                remove_sorted(&mut self.selected_extensions, extensions[i].as_str());
                assert(start - seen.push(x).to_set() =~= (start - seen.to_set()).remove(x));
            }
            i = i + 1;
        }
        assert(views(extensions@).take(extensions.len() as int) =~= views(extensions@));
        self.feedback = None;
    }

    /// Selects every supported extension and clears the last report.
    pub fn select_all(&mut self)
        requires
            old(self).well_formed(),
        ensures
            final(self).well_formed(),
            views(final(self).selected_extensions@).to_set()
                == crate::association_formats::spec_supported_extensions().to_set(),
            final(self).registered_extensions == old(self).registered_extensions,
            final(self).initialized == old(self).initialized,
            final(self).feedback is None,
    {
        let all = crate::association_formats::supported_image_extensions();
        let mut chosen: Vec<String> = Vec::new();
        let mut i: usize = 0;
        while i < all.len()
            invariant
                i <= all.len(),
                views(all@) == crate::association_formats::spec_supported_extensions(),
                strictly_sorted(views(chosen@)),
                views(chosen@).to_set() == views(all@).take(i as int).to_set(),
            decreases all.len() - i,
        {
            let ghost seen = views(all@).take(i as int);
            assert(views(all@).take(i + 1) =~= seen.push(all@[i as int]@));
            proof {
                seen.lemma_push_to_set_commute(all@[i as int]@);
            }
            insert_sorted(&mut chosen, all[i].clone());
            i = i + 1;
        }
        assert(views(all@).take(all.len() as int) =~= views(all@));
        self.selected_extensions = chosen;
        self.feedback = None;
    }

    /// Deselects everything and clears the last report.
    pub fn clear_selection(&mut self)
        requires
            old(self).well_formed(),
        ensures
            final(self).well_formed(),
            final(self).selected_extensions@.len() == 0,
            final(self).registered_extensions == old(self).registered_extensions,
            final(self).initialized == old(self).initialized,
            final(self).feedback is None,
    {
        self.selected_extensions = Vec::new();
        self.feedback = None;
    }
}

} // verus!
