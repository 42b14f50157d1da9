//! Merge-back of completed translations and derivation of the missing catalog.

use vstd::prelude::*;
use crate::entry::{copy_opt, Entry, EntryView};

verus! {

/// The model of a catalog: the models of its entries, in order.
pub open spec fn catalog_view(c: Seq<Entry>) -> Seq<EntryView> {
    c.map_values(|e: Entry| e@)
}

/// `i` is the first position of `s` that holds the same unit as `e`.
pub open spec fn is_first_unit(s: Seq<EntryView>, e: EntryView, i: int) -> bool {
    &&& 0 <= i < s.len()
    &&& s[i].same_unit(e)
    &&& forall|k: int| 0 <= k < i ==> !(#[trigger] s[k]).same_unit(e)
}

/// The first position of `s` that holds the same unit as `e`, if any.
pub open spec fn first_unit(s: Seq<EntryView>, e: EntryView) -> Option<int> {
    if exists|i: int| is_first_unit(s, e, i) {
        Some(choose|i: int| is_first_unit(s, e, i))
    } else {
        None
    }
}

/// Whether merging `e` into `cat` changes a translation of `cat`.
pub open spec fn merge_hits(cat: Seq<EntryView>, e: EntryView) -> bool {
    e.is_completed() && first_unit(cat, e) is Some
}

/// `cat` after the translation of `e` is merged into it: a completed entry
/// overwrites the translation of the first entry of the same unit.
pub open spec fn merge_step(cat: Seq<EntryView>, e: EntryView) -> Seq<EntryView> {
    if merge_hits(cat, e) {
        let i = first_unit(cat, e)->0;
        cat.update(i, cat[i].with_translation(e.translation))
    } else {
        cat
    }
}

/// `main` after the entries of `missing` are merged into it, in order.
pub open spec fn merged(main: Seq<EntryView>, missing: Seq<EntryView>) -> Seq<EntryView>
    decreases missing.len(),
{
    if missing.len() == 0 {
        main
    } else {
        merge_step(merged(main, missing.drop_last()), missing.last())
    }
}

/// How many entries of `missing` update a translation of `main`.
pub open spec fn merge_count(main: Seq<EntryView>, missing: Seq<EntryView>) -> nat
    decreases missing.len(),
{
    if missing.len() == 0 {
        0
    } else {
        merge_count(main, missing.drop_last()) + if merge_hits(
            merged(main, missing.drop_last()),
            missing.last(),
        ) {
            1nat
        } else {
            0nat
        }
    }
}

/// The position of the first entry of `cat` that stands for the same unit as
/// `e`.
pub fn find_unit(cat: &Vec<Entry>, e: &Entry) -> (r: Option<usize>)
    ensures
        r matches Some(i) ==> first_unit(catalog_view(cat@), e@) == Some(i as int),
        r is None ==> first_unit(catalog_view(cat@), e@) is None,
{
    let ghost s = catalog_view(cat@);
    let mut i: usize = 0;
    while i < cat.len()
        invariant
            s == catalog_view(cat@),
            i <= cat.len(),
            forall|k: int| 0 <= k < i ==> !(#[trigger] s[k]).same_unit(e@),
        decreases cat.len() - i,
    {
        if cat[i].same_unit(e) {
            assert(is_first_unit(s, e@, i as int));
            proof {
                let j = choose|j: int| is_first_unit(s, e@, j);
                if j < i {
                    assert(!s[j].same_unit(e@));
                } else if j > i {
                    assert(!s[i as int].same_unit(e@));
                }
            }
            return Some(i);
        }
        i = i + 1;
    }
    assert(!exists|j: int| is_first_unit(s, e@, j)) by {
        if exists|j: int| is_first_unit(s, e@, j) {
            let j = choose|j: int| is_first_unit(s, e@, j);
            assert(s[j].same_unit(e@));
        }
    }
    None
}

/// Merges every completed translation of `missing` into the first entry of
/// `main` of the same unit, and returns how many translations were updated.
/// Headers, untranslated entries and entries without a counterpart change
/// nothing.
pub fn merge_back(main: &mut Vec<Entry>, missing: &Vec<Entry>) -> (n: usize)
    ensures
        catalog_view(final(main)@) == merged(catalog_view(old(main)@), catalog_view(missing@)),
        n == merge_count(catalog_view(old(main)@), catalog_view(missing@)),
{
    let ghost m0 = catalog_view(main@);
    let ghost ms = catalog_view(missing@);
    let mut n: usize = 0;
    let mut j: usize = 0;
    while j < missing.len()
        invariant
            j <= missing.len(),
            ms == catalog_view(missing@),
            catalog_view(main@) == merged(m0, ms.subrange(0, j as int)),
            n == merge_count(m0, ms.subrange(0, j as int)),
            n <= j,
        decreases missing.len() - j,
    {
        let ghost before = catalog_view(main@);
        let e = &missing[j];
        assert(ms.subrange(0, j + 1).drop_last() =~= ms.subrange(0, j as int));
        assert(ms.subrange(0, j + 1).last() == e@);
        if e.is_completed() {
            match find_unit(main, e) {
                Some(i) => {
                    main[i].translation = copy_opt(&e.translation);
                    assert(catalog_view(main@) =~= before.update(
                        i as int,
                        before[i as int].with_translation(e@.translation),
                    ));
                    n = n + 1;
                },
                None => {},
            }
        }
        j = j + 1;
    }
    assert(ms.subrange(0, missing.len() as int) =~= ms);
    n
}

/// `i` is the position of the first header entry of `s`.
pub open spec fn is_first_header(s: Seq<EntryView>, i: int) -> bool {
    &&& 0 <= i < s.len()
    &&& s[i].is_header()
    &&& forall|k: int| 0 <= k < i ==> !(#[trigger] s[k]).is_header()
}

/// The position of the first header entry of `s`, if any.
pub open spec fn first_header(s: Seq<EntryView>) -> Option<int> {
    if exists|i: int| is_first_header(s, i) {
        Some(choose|i: int| is_first_header(s, i))
    } else {
        None
    }
}

/// An entry that belongs in the missing catalog as a translation unit.
pub open spec fn is_missing_unit(e: EntryView) -> bool {
    !e.is_header() && e.is_untranslated()
}

/// The translation units of `s` that still lack a translation, in order.
pub open spec fn missing_units(s: Seq<EntryView>) -> Seq<EntryView>
    decreases s.len(),
{
    if s.len() == 0 {
        s
    } else if is_missing_unit(s.last()) {
        missing_units(s.drop_last()).push(s.last())
    } else {
        missing_units(s.drop_last())
    }
}

/// The header of `s` as a catalog of zero or one entries.
pub open spec fn header_part(s: Seq<EntryView>) -> Seq<EntryView> {
    match first_header(s) {
        Some(h) => seq![s[h]],
        None => Seq::empty(),
    }
}

/// The missing catalog derived from `main`: its header first, if it has one,
/// then every translation unit that lacks a translation, in the order of `main`.
pub open spec fn missing_of(main: Seq<EntryView>) -> Seq<EntryView> {
    header_part(main) + missing_units(main)
}

/// What the missing catalog of `main` is to be, where its entries come from.
pub struct MissingPlan {
    /// The position of the header of the main catalog.
    pub header: Option<usize>,
    /// The positions of the untranslated units of the main catalog, in order.
    pub units: Vec<usize>,
}

impl MissingPlan {
    /// The plan takes its header and units from positions of `main`.
    pub open spec fn describes(&self, main: Seq<EntryView>) -> bool {
        &&& match self.header {
            Some(h) => first_header(main) == Some(h as int),
            None => first_header(main) is None,
        }
        &&& forall|k: int| 0 <= k < self.units@.len() ==> (#[trigger] self.units@[k]) < main.len()
        &&& self.units@.map_values(|i: usize| main[i as int]) == missing_units(main)
    }

    /// Whether the missing catalog has any translation unit, so that it is
    /// written; otherwise the missing file is removed.
    pub fn has_units(&self) -> (r: bool)
        ensures
            r == (self.units@.len() > 0),
    {
        self.units.len() > 0
    }
}

/// The position of the first header entry of `cat`.
pub fn find_header(cat: &Vec<Entry>) -> (r: Option<usize>)
    ensures
        r matches Some(i) ==> first_header(catalog_view(cat@)) == Some(i as int),
        r is None ==> first_header(catalog_view(cat@)) is None,
{
    let ghost s = catalog_view(cat@);
    let mut i: usize = 0;
    while i < cat.len()
        invariant
            s == catalog_view(cat@),
            i <= cat.len(),
            forall|k: int| 0 <= k < i ==> !(#[trigger] s[k]).is_header(),
        decreases cat.len() - i,
    {
        if cat[i].is_header() {
            assert(is_first_header(s, i as int));
            proof {
                let j = choose|j: int| is_first_header(s, j);
                if j < i {
                    assert(!s[j].is_header());
                } else if j > i {
                    assert(!s[i as int].is_header());
                }
            }
            return Some(i);
        }
        i = i + 1;
    }
    assert(!exists|j: int| is_first_header(s, j)) by {
        if exists|j: int| is_first_header(s, j) {
            let j = choose|j: int| is_first_header(s, j);
            assert(s[j].is_header());
        }
    }
    None
}

/// Where the missing catalog of `main` takes its entries from: the header of
/// `main`, if any, and the positions of its untranslated units.
pub fn plan_missing(main: &Vec<Entry>) -> (r: MissingPlan)
    ensures
        r.describes(catalog_view(main@)),
{
    let ghost s = catalog_view(main@);
    let header = find_header(main);
    let mut units: Vec<usize> = Vec::new();
    let mut i: usize = 0;
    while i < main.len()
        invariant
            s == catalog_view(main@),
            i <= main.len(),
            forall|k: int| 0 <= k < units@.len() ==> (#[trigger] units@[k]) < i,
            units@.map_values(|p: usize| s[p as int]) == missing_units(s.subrange(0, i as int)),
        decreases main.len() - i,
    {
        let ghost before = units@;
        assert(s.subrange(0, i + 1).drop_last() =~= s.subrange(0, i as int));
        assert(s.subrange(0, i + 1).last() == s[i as int]);
        if !main[i].is_header() && main[i].is_untranslated() {
            units.push(i);
            assert(units@.map_values(|p: usize| s[p as int]) =~= before.map_values(
                |p: usize| s[p as int],
            ).push(s[i as int]));
        }
        i = i + 1;
    }
    assert(s.subrange(0, main.len() as int) =~= s);
    MissingPlan { header, units }
}

/// The missing catalog derived from `main`.
pub fn recompute_missing(main: &Vec<Entry>) -> (r: Vec<Entry>)
    ensures
        catalog_view(r@) == missing_of(catalog_view(main@)),
{
    let ghost s = catalog_view(main@);
    let plan = plan_missing(main);
    let mut r: Vec<Entry> = Vec::new();
    match plan.header {
        Some(h) => {
            r.push(main[h].duplicate());
        },
        None => {},
    }
    assert(catalog_view(r@) =~= header_part(s));
    let ghost units = plan.units@.map_values(|p: usize| s[p as int]);
    let mut k: usize = 0;
    while k < plan.units.len()
        invariant
            s == catalog_view(main@),
            plan.describes(s),
            units == plan.units@.map_values(|p: usize| s[p as int]),
            k <= plan.units.len(),
            catalog_view(r@) == header_part(s) + units.subrange(0, k as int),
        decreases plan.units.len() - k,
    {
        let p = plan.units[k];
        assert(p < main.len());
        let ghost before = catalog_view(r@);
        r.push(main[p].duplicate());
        assert(catalog_view(r@) =~= before.push(s[p as int]));
        assert(units.subrange(0, k + 1) =~= units.subrange(0, k as int).push(units[k as int]));
        k = k + 1;
    }
    assert(units.subrange(0, plan.units.len() as int) =~= units);
    r
}

/// The model of a catalog that may be absent.
pub open spec fn opt_catalog_view(c: Option<Vec<Entry>>) -> Option<Seq<EntryView>> {
    match c {
        Some(v) => Some(catalog_view(v@)),
        None => None,
    }
}

/// The main catalog after a reconciliation: `missing` merged into it, when a
/// missing catalog could be loaded.
pub open spec fn reconciled_main(
    main: Seq<EntryView>,
    missing: Option<Seq<EntryView>>,
) -> Seq<EntryView> {
    match missing {
        Some(c) => merged(main, c),
        None => main,
    }
}

/// How many translations a reconciliation merges back into `main`.
pub open spec fn reconcile_merges(main: Seq<EntryView>, missing: Option<Seq<EntryView>>) -> nat {
    match missing {
        Some(c) => merge_count(main, c),
        None => 0,
    }
}

/// What the missing file holds once `main` is reconciled: the missing catalog
/// derived from it when that has a translation unit, and no file otherwise.
pub open spec fn missing_file(main: Seq<EntryView>) -> Option<Seq<EntryView>> {
    if missing_units(main).len() > 0 {
        Some(missing_of(main))
    } else {
        None
    }
}

/// The result of reconciling one locale.
pub struct Reconciliation {
    /// How many translations were merged back into the main catalog.
    pub merged: usize,
    /// The new content of the missing file, or `None` where the file goes.
    pub missing: Option<Vec<Entry>>,
}

impl Reconciliation {
    /// Whether the main catalog was changed, so that it is saved again and the
    /// old missing file is removed before the new one is derived.
    pub fn main_changed(&self) -> (r: bool)
        ensures
            r == (self.merged > 0),
    {
        self.merged > 0
    }
}

/// Reconciles the catalogs of one locale: merges the completed translations
/// of `missing` (absent where no missing catalog could be loaded) into `main`,
/// then derives the new missing catalog from the result.
pub fn reconcile(main: &mut Vec<Entry>, missing: &Option<Vec<Entry>>) -> (r: Reconciliation)
    ensures
        catalog_view(final(main)@) == reconciled_main(
            catalog_view(old(main)@),
            opt_catalog_view(*missing),
        ),
        r.merged == reconcile_merges(catalog_view(old(main)@), opt_catalog_view(*missing)),
        opt_catalog_view(r.missing) == missing_file(catalog_view(final(main)@)),
{
    let merged = match missing {
        Some(c) => merge_back(main, c),
        None => 0,
    };
    let plan = plan_missing(main);
    let out = if plan.has_units() {
        Some(recompute_missing(main))
    } else {
        None
    };
    Reconciliation { merged, missing: out }
}

/// Every entry of `missing_units(s)` is an untranslated unit.
proof fn lemma_missing_units_are_missing(s: Seq<EntryView>)
    ensures
        forall|k: int|
            0 <= k < missing_units(s).len() ==> is_missing_unit(#[trigger] missing_units(s)[k]),
    decreases s.len(),
{
    if s.len() > 0 {
        lemma_missing_units_are_missing(s.drop_last());
        let p = missing_units(s.drop_last());
        assert forall|k: int| 0 <= k < missing_units(s).len() implies is_missing_unit(
            #[trigger] missing_units(s)[k],
        ) by {
            if k < p.len() {
                assert(missing_units(s)[k] == p[k]);
            }
        }
    }
}

/// A catalog of untranslated units is its own list of missing units.
proof fn lemma_missing_units_keep_all(s: Seq<EntryView>)
    requires
        forall|k: int| 0 <= k < s.len() ==> is_missing_unit(#[trigger] s[k]),
    ensures
        missing_units(s) == s,
    decreases s.len(),
{
    if s.len() > 0 {
        lemma_missing_units_keep_all(s.drop_last());
        assert(s.drop_last().push(s.last()) =~= s);
    }
}

/// A leading header is never a missing unit.
proof fn lemma_missing_units_skip_header(h: EntryView, u: Seq<EntryView>)
    requires
        h.is_header(),
    ensures
        missing_units(seq![h] + u) == missing_units(u),
    decreases u.len(),
{
    let hu = seq![h] + u;
    if u.len() > 0 {
        assert(hu.drop_last() =~= seq![h] + u.drop_last());
        assert(hu.last() == u.last());
        lemma_missing_units_skip_header(h, u.drop_last());
        assert(missing_units(hu.drop_last()) == missing_units(u.drop_last()));
    } else {
        assert(hu.drop_last() =~= Seq::<EntryView>::empty());
        assert(hu.last() == h);
        assert(missing_units(hu) == missing_units(hu.drop_last()));
        assert(missing_units(Seq::<EntryView>::empty()) == Seq::<EntryView>::empty());
    }
}

/// Entries that are headers or untranslated never alter the main catalog:
/// merging a catalog made only of them leaves `main` as it is and counts no
/// update.
pub proof fn lemma_untranslated_merge_nothing(main: Seq<EntryView>, missing: Seq<EntryView>)
    requires
        forall|k: int| 0 <= k < missing.len() ==> !(#[trigger] missing[k]).is_completed(),
    ensures
        merged(main, missing) == main,
        merge_count(main, missing) == 0,
    decreases missing.len(),
{
    if missing.len() > 0 {
        lemma_untranslated_merge_nothing(main, missing.drop_last());
        assert(!missing[missing.len() - 1].is_completed());
    }
}

/// No entry of a derived missing catalog holds a completed translation.
proof fn lemma_missing_has_nothing_completed(main: Seq<EntryView>)
    ensures
        forall|k: int|
            0 <= k < missing_of(main).len() ==> !(#[trigger] missing_of(main)[k]).is_completed(),
{
    lemma_missing_units_are_missing(main);
    let h = header_part(main);
    let u = missing_units(main);
    assert forall|k: int| 0 <= k < missing_of(main).len() implies !(
    #[trigger] missing_of(main)[k]).is_completed() by {
        if k < h.len() {
            assert(missing_of(main)[k] == main[first_header(main)->0]);
        } else {
            assert(missing_of(main)[k] == u[k - h.len()]);
        }
    }
}

/// Deriving the missing catalog is a fixed point: the missing catalog derived
/// from a derived missing catalog is that catalog again.
pub proof fn lemma_missing_fixed_point(main: Seq<EntryView>)
    ensures
        missing_of(missing_of(main)) == missing_of(main),
{
    let m = missing_of(main);
    let u = missing_units(main);
    lemma_missing_units_are_missing(main);
    lemma_missing_units_keep_all(u);
    match first_header(main) {
        Some(hi) => {
            let h = main[hi];
            assert(m == seq![h] + u);
            assert(is_first_header(m, 0));
            let j = choose|j: int| is_first_header(m, j);
            if j > 0 {
                assert(!m[0].is_header());
            }
            assert(first_header(m) == Some(0int));
            lemma_missing_units_skip_header(h, u);
            assert(header_part(m) =~= seq![h]);
        },
        None => {
            assert(m =~= u);
            assert(!exists|j: int| is_first_header(m, j)) by {
                if exists|j: int| is_first_header(m, j) {
                    let j = choose|j: int| is_first_header(m, j);
                    assert(is_missing_unit(u[j]));
                }
            }
            assert(header_part(m) =~= Seq::<EntryView>::empty());
            assert(missing_of(m) =~= u);
        },
    }
}

/// Reconciling twice in a row changes nothing the second time: the missing
/// file left by the first run merges no translation, the main catalog stays
/// as it is, and the same missing file results.
pub proof fn lemma_reconcile_idempotent(main: Seq<EntryView>, missing: Option<Seq<EntryView>>)
    ensures
        ({
            let m1 = reconciled_main(main, missing);
            let s1 = missing_file(m1);
            &&& reconciled_main(m1, s1) == m1
            &&& reconcile_merges(m1, s1) == 0
            &&& missing_file(reconciled_main(m1, s1)) == s1
        }),
{
    let m1 = reconciled_main(main, missing);
    if missing_units(m1).len() > 0 {
        lemma_missing_has_nothing_completed(m1);
        lemma_untranslated_merge_nothing(m1, missing_of(m1));
    }
}

/// A header at the front of the main catalog leads the missing catalog
/// whenever one is written, and a header alone writes no missing file.
pub proof fn lemma_header_leads(main: Seq<EntryView>)
    requires
        main.len() > 0,
        main[0].is_header(),
    ensures
        missing_units(main).len() > 0 ==> missing_file(main) == Some(missing_of(main))
            && missing_of(main)[0] == main[0],
        missing_units(main).len() == 0 ==> missing_file(main) is None,
{
    assert(is_first_header(main, 0));
    let j = choose|j: int| is_first_header(main, j);
    if j > 0 {
        assert(!main[0].is_header());
    }
    assert(first_header(main) == Some(0int));
}

} // verus!
