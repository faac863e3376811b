use vstd::prelude::*;
use crate::package::{AurPackage, PackageView, packages_view};
use crate::sorting::{SortMode, sorted_by, sort_packages};

verus! {

/// `marks` with `name` added at the end, unless it is already there.
pub open spec fn with_mark(marks: Seq<Seq<char>>, name: Seq<char>) -> Seq<Seq<char>> {
    if marks.contains(name) {
        marks
    } else {
        marks.push(name)
    }
}

/// `marks` with every occurrence of `name` taken out, the rest in order.
pub open spec fn without_mark(marks: Seq<Seq<char>>, name: Seq<char>) -> Seq<Seq<char>>
    decreases marks.len(),
{
    if marks.len() == 0 {
        marks
    } else if marks.last() == name {
        without_mark(marks.drop_last(), name)
    } else {
        without_mark(marks.drop_last(), name).push(marks.last())
    }
}

/// The bookmark list after the bookmark of `name` is switched on or off.
pub open spec fn toggled(marks: Seq<Seq<char>>, name: Seq<char>, on: bool) -> Seq<Seq<char>> {
    if on {
        with_mark(marks, name)
    } else {
        without_mark(marks, name)
    }
}

/// The packages of `results` whose names are bookmarked, in their order.
pub open spec fn bookmarked_only(results: Seq<PackageView>, marks: Seq<Seq<char>>) -> Seq<PackageView>
    decreases results.len(),
{
    if results.len() == 0 {
        results
    } else if marks.contains(results.last().name) {
        bookmarked_only(results.drop_last(), marks).push(results.last())
    } else {
        bookmarked_only(results.drop_last(), marks)
    }
}

/// The current result list of the browser and the user's bookmarks.
pub struct ResultState {
    results: Vec<AurPackage>,
    bookmarks: Vec<String>,
}

impl ResultState {
    /// The packages of the latest fetch, in the order it returned them.
    pub closed spec fn results_view(&self) -> Seq<PackageView> {
        packages_view(self.results@)
    }

    /// The bookmarked names, in the order they were added.
    pub closed spec fn marks(&self) -> Seq<Seq<char>> {
        self.bookmarks@.map_values(|s: String| s@)
    }

    /// No name is bookmarked twice.
    pub open spec fn well_formed(&self) -> bool {
        self.marks().no_duplicates()
    }

    /// No results and no bookmarks.
    pub fn new() -> (r: ResultState)
        ensures
            r.well_formed(),
            r.results_view() == Seq::<PackageView>::empty(),
            r.marks() == Seq::<Seq<char>>::empty(),
    {
        let r = ResultState { results: Vec::new(), bookmarks: Vec::new() };
        assert(r.results_view() =~= Seq::<PackageView>::empty());
        assert(r.marks() =~= Seq::<Seq<char>>::empty());
        r
    }

    /// Discards the current results for `records`; bookmarks stay.
    pub fn replace_results(&mut self, records: Vec<AurPackage>)
        ensures
            final(self).results_view() == packages_view(records@),
            final(self).marks() == old(self).marks(),
    {
        self.results = records;
    }

    /// The current results, in the order the fetch returned them.
    pub fn results(&self) -> (r: &Vec<AurPackage>)
        ensures
            packages_view(r@) == self.results_view(),
    {
        &self.results
    }

    /// The bookmarked names.
    pub fn bookmarks(&self) -> (r: &Vec<String>)
        ensures
            r@.map_values(|s: String| s@) == self.marks(),
    {
        &self.bookmarks
    }

    /// A copy of the current results, stably sorted under `mode`; the
    /// stored order is left as it was.
    pub fn sorted(&self, mode: SortMode) -> (r: Vec<AurPackage>)
        ensures
            sorted_by(mode, self.results_view(), packages_view(r@)),
    {
        let mut v = crate::package::duplicate_all(&self.results);
        sort_packages(&mut v, mode);
        v
    }

    /// Whether `name` is bookmarked.
    pub fn is_bookmarked(&self, name: &String) -> (r: bool)
        ensures
            r == self.marks().contains(name@),
    {
        let mut i: usize = 0;
        while i < self.bookmarks.len()
            invariant
                i <= self.bookmarks@.len(),
                forall|k: int| 0 <= k < i ==> #[trigger] self.bookmarks@[k]@ != name@,
            decreases self.bookmarks@.len() - i,
        {
            if self.bookmarks[i] == *name {
                assert(self.marks()[i as int] == name@);
                return true;
            }
            i = i + 1;
        }
        proof {
            if self.marks().contains(name@) {
                let k = choose|k: int| 0 <= k < self.marks().len() && self.marks()[k] == name@;
                assert(self.bookmarks@[k]@ == name@);
            }
        }
        false
    }

    /// Switches the bookmark of `name` on (added once, at the end) or off
    /// (every occurrence taken out).
    pub fn toggle_bookmark(&mut self, name: &String, bookmarked: bool)
        requires
            old(self).well_formed(),
        ensures
            final(self).well_formed(),
            final(self).marks() == toggled(old(self).marks(), name@, bookmarked),
            final(self).results_view() == old(self).results_view(),
    {
        if bookmarked {
            if !self.is_bookmarked(name) {
                self.bookmarks.push(name.clone());
                assert(self.marks() =~= old(self).marks().push(name@));
            }
        } else {
            let ghost marks = self.marks();
            let mut kept: Vec<String> = Vec::new();
            let mut i: usize = 0;
            while i < self.bookmarks.len()
                invariant
                    marks == self.marks(),
                    i <= self.bookmarks@.len(),
                    kept@.map_values(|s: String| s@) == without_mark(marks.take(i as int), name@),
                decreases self.bookmarks@.len() - i,
            {
                assert(marks.take(i + 1).drop_last() =~= marks.take(i as int));
                let ghost before = kept@;
                if self.bookmarks[i] != *name {
                    kept.push(self.bookmarks[i].clone());
                    assert(kept@.map_values(|s: String| s@) =~= before.map_values(|s: String| s@).push(marks[i as int]));
                }
                i = i + 1;
            }
            assert(marks.take(i as int) =~= marks);
            proof {
                lemma_without_mark_no_duplicates(marks, name@);
            }
            self.bookmarks = kept;
        }
    }

    /// The current results whose names are bookmarked, in result order.
    pub fn bookmarked_view(&self) -> (r: Vec<AurPackage>)
        ensures
            packages_view(r@) == bookmarked_only(self.results_view(), self.marks()),
    {
        let ghost rs = self.results_view();
        let mut out: Vec<AurPackage> = Vec::new();
        let mut i: usize = 0;
        while i < self.results.len()
            invariant
                rs == self.results_view(),
                i <= self.results@.len(),
                packages_view(out@) == bookmarked_only(rs.take(i as int), self.marks()),
            decreases self.results@.len() - i,
        {
            assert(rs.take(i + 1).drop_last() =~= rs.take(i as int));
            assert(rs.take(i + 1).last() == self.results@[i as int]@);
            let ghost before = out@;
            if self.is_bookmarked(&self.results[i].name) {
                out.push(self.results[i].duplicate());
                assert(packages_view(out@) =~= packages_view(before).push(self.results@[i as int]@));
            }
            i = i + 1;
        }
        assert(rs.take(i as int) =~= rs);
        out
    }
}

proof fn lemma_without_mark_subset(marks: Seq<Seq<char>>, name: Seq<char>, x: Seq<char>)
    requires
        without_mark(marks, name).contains(x),
    ensures
        marks.contains(x),
        x != name,
    decreases marks.len(),
{
    if marks.len() > 0 {
        let rest = without_mark(marks.drop_last(), name);
        if marks.last() != name && x == marks.last() {
            assert(marks[marks.len() - 1] == x);
        } else {
            if marks.last() != name {
                let k = choose|k: int| 0 <= k < rest.push(marks.last()).len() && rest.push(marks.last())[k] == x;
                assert(rest[k] == x);
            }
            lemma_without_mark_subset(marks.drop_last(), name, x);
            let k = choose|k: int| 0 <= k < marks.drop_last().len() && marks.drop_last()[k] == x;
            assert(marks[k] == x);
        }
    }
}

proof fn lemma_without_mark_no_duplicates(marks: Seq<Seq<char>>, name: Seq<char>)
    requires
        marks.no_duplicates(),
    ensures
        without_mark(marks, name).no_duplicates(),
        !without_mark(marks, name).contains(name),
    decreases marks.len(),
{
    if marks.len() > 0 {
        let init = marks.drop_last();
        lemma_without_mark_no_duplicates(init, name);
        let rest = without_mark(init, name);
        if marks.last() != name {
            if rest.contains(marks.last()) {
                lemma_without_mark_subset(init, name, marks.last());
                let k = choose|k: int| 0 <= k < init.len() && init[k] == marks.last();
                assert(marks[k] == marks[marks.len() - 1]);
            }
            let r2 = rest.push(marks.last());
            assert forall|a: int, b: int| 0 <= a < b < r2.len() implies r2[a] != r2[b] by {
                if b == r2.len() - 1 {
                    assert(rest.contains(r2[a]) || a == b);
                }
            }
            if r2.contains(name) {
                let k = choose|k: int| 0 <= k < r2.len() && r2[k] == name;
                if k < rest.len() {
                    assert(rest[k] == name);
                }
            }
        }
    }
}

/// Bookmarking a name that was just bookmarked changes nothing, and
/// removing a name that is not bookmarked changes nothing.
pub proof fn lemma_toggle_idempotent(marks: Seq<Seq<char>>, name: Seq<char>)
    ensures
        toggled(toggled(marks, name, true), name, true) == toggled(marks, name, true),
        !marks.contains(name) ==> toggled(marks, name, false) == marks,
{
    let once = toggled(marks, name, true);
    if !marks.contains(name) {
        assert(once[once.len() - 1] == name);
        assert(once.contains(name));
        lemma_without_absent(marks, name);
    }
}

proof fn lemma_without_absent(marks: Seq<Seq<char>>, name: Seq<char>)
    requires
        !marks.contains(name),
    ensures
        without_mark(marks, name) == marks,
    decreases marks.len(),
{
    if marks.len() > 0 {
        assert(marks[marks.len() - 1] == marks.last());
        assert(!marks.drop_last().contains(name)) by {
            if marks.drop_last().contains(name) {
                let k = choose|k: int| 0 <= k < marks.drop_last().len() && marks.drop_last()[k] == name;
                assert(marks[k] == name);
            }
        }
        lemma_without_absent(marks.drop_last(), name);
        assert(marks.drop_last().push(marks.last()) =~= marks);
    }
}

/// With no results there is nothing to show under bookmarks, whatever is
/// bookmarked.
pub proof fn lemma_no_results_no_bookmarked(marks: Seq<Seq<char>>)
    ensures
        bookmarked_only(Seq::<PackageView>::empty(), marks) == Seq::<PackageView>::empty(),
{
}

} // verus!
