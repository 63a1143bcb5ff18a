//! Open-data catalogs: portals kept for good or for the session, and the
//! datasets the selected one lists.
use vstd::prelude::*;
use crate::calendar::epoch_seconds;
use crate::tally::{lists, lists_one_more};
use crate::text::{
    a_tail_is_taken_off, occurs_at, trimming_takes_white_ends, white,
    cat3, cat4, contains, dec, decimal, in_order, join, joined, lowercase, occurs, order_is_total,
    order_is_transitive, ordered, push_text, same, starts_with, strip_suffix, take_chars, texts,
    to_lower, trim, trim_end, trim_prefixes, trim_trailing, trimmed, trimmed_end, without_prefixes,
    without_trailing,
};

verus! {

/// A portal.
#[derive(Debug)]
pub struct Catalog {
    pub name: String,
    pub url: String,
    /// When it was kept for good, in seconds since 1970; none where it is
    /// built in, or not kept.
    pub added_on: Option<u64>,
}

/// A format a dataset is published in.
#[derive(Clone, Copy, PartialEq, Eq, Structural, Debug)]
pub enum DcatFormat {
    GeoParquet,
    GeoPackage,
    GeoJson,
    Csv,
}

/// A published file.
#[derive(Debug)]
pub struct Distribution {
    pub format: DcatFormat,
    /// The name of the format.
    pub label: String,
    pub url: String,
}

/// The extent of a dataset, each side as text with four decimals.
#[derive(Debug)]
pub struct ExtentText {
    pub west: String,
    pub south: String,
    pub east: String,
    pub north: String,
}

/// A dataset of a portal.
#[derive(Debug)]
pub struct DcatDataset {
    pub title: String,
    pub description: String,
    pub keywords: Vec<String>,
    pub publisher: Option<String>,
    pub license: Option<String>,
    pub extent: Option<ExtentText>,
    pub modified: Option<String>,
    /// Best format first.
    pub distributions: Vec<Distribution>,
}

/// What a portal lists.
#[derive(Debug)]
pub struct DcatCatalog {
    pub title: Option<String>,
    pub datasets: Vec<DcatDataset>,
    /// Datasets without a format that can be opened.
    pub hidden: usize,
    pub truncated: bool,
}

/// A catalog of the saved list, or of the session's.
#[derive(Clone, Copy, PartialEq, Eq, Structural, Debug)]
pub struct Selected {
    pub saved: bool,
    pub index: usize,
}

/// The catalog dialog.
#[derive(Debug)]
pub struct CatalogBrowser {
    pub saved: Vec<Catalog>,
    pub session: Vec<Catalog>,
    pub sel: Option<Selected>,
    pub add_url: String,
    /// The selected portal's catalog; none while it is being fetched.
    pub dcat: Option<Result<DcatCatalog, String>>,
    /// Datasets ticked, in ascending order.
    pub checked: Vec<usize>,
    pub filter: String,
    pub geo_only: bool,
    /// Tells fetches apart.
    pub generation: u64,
}

// --- the order of the saved list --------------------------------------------------

/// What a catalog is filed under.
pub open spec fn filed(c: Catalog) -> Seq<char> {
    lowercase(c.name@)
}

/// Where `c` goes behind the entries of `s` that are not filed after it.
pub open spec fn slot(s: Seq<Catalog>, c: Catalog) -> int
    decreases s.len(),
{
    if s.len() == 0 {
        0
    } else if ordered(filed(s.last()), filed(c)) {
        s.len() as int
    } else {
        slot(s.drop_last(), c)
    }
}

/// The catalogs in alphabetical order; those filed alike keep their order.
pub open spec fn arranged(s: Seq<Catalog>) -> Seq<Catalog>
    decreases s.len(),
{
    if s.len() == 0 {
        Seq::empty()
    } else {
        let t = arranged(s.drop_last());
        t.insert(slot(t, s.last()), s.last())
    }
}

/// Entries in alphabetical order.
pub open spec fn alphabetical(s: Seq<Catalog>) -> bool {
    forall|i: int, j: int|
        0 <= i <= j < s.len() ==> ordered(filed(#[trigger] s[i]), filed(#[trigger] s[j]))
}

proof fn slot_splits(s: Seq<Catalog>, c: Catalog)
    ensures
        0 <= slot(s, c) <= s.len(),
        slot(s, c) > 0 ==> ordered(filed(s[slot(s, c) - 1]), filed(c)),
        slot(s, c) < s.len() ==> !ordered(filed(s[slot(s, c)]), filed(c)),
    decreases s.len(),
{
    if s.len() > 0 && !ordered(filed(s.last()), filed(c)) {
        slot_splits(s.drop_last(), c);
    }
}

/// Arranging catalogs puts them in alphabetical order and neither adds nor
/// loses one.
pub proof fn arranged_is_alphabetical(s: Seq<Catalog>)
    ensures
        alphabetical(arranged(s)),
        arranged(s).to_multiset() =~= s.to_multiset(),
        arranged(s).len() == s.len(),
    decreases s.len(),
{
    broadcast use vstd::seq_lib::group_to_multiset_ensures;

    if s.len() > 0 {
        let t = arranged(s.drop_last());
        let c = s.last();
        arranged_is_alphabetical(s.drop_last());
        slot_splits(t, c);
        let p = slot(t, c);
        let r = t.insert(p, c);
        assert forall|i: int, j: int| 0 <= i <= j < r.len() implies ordered(
            filed(#[trigger] r[i]),
            filed(#[trigger] r[j]),
        ) by {
            let a = if i < p {
                i
            } else {
                i - 1
            };
            let b = if j < p {
                j
            } else {
                j - 1
            };
            if i != p && j != p {
                assert(r[i] == t[a] && r[j] == t[b]);
            } else if i == p && j == p {
                order_is_total(filed(c), filed(c));
            } else if j == p {
                assert(r[i] == t[a]);
                assert(ordered(filed(t[i]), filed(t[p - 1])));
                order_is_transitive(filed(t[i]), filed(t[p - 1]), filed(c));
            } else {
                assert(r[j] == t[b]);
                order_is_total(filed(t[p]), filed(c));
                assert(ordered(filed(t[p]), filed(t[b])));
                order_is_transitive(filed(c), filed(t[p]), filed(t[b]));
            }
        }
        assert(s =~= s.drop_last().push(c));
        assert(r.to_multiset() =~= t.to_multiset().insert(c));
        assert(s.to_multiset() =~= s.drop_last().to_multiset().insert(c));
    } else {
        assert(s =~= Seq::<Catalog>::empty());
    }
}

fn find_slot(s: &Vec<Catalog>, c: &Catalog) -> (p: usize)
    ensures
        p == slot(s@, *c),
        p <= s@.len(),
{
    let key = to_lower(c.name.as_str());
    let mut i: usize = s.len();
    assert(s@.subrange(0, s@.len() as int) =~= s@);
    while i > 0
        invariant
            i <= s@.len(),
            key@ == filed(*c),
            slot(s@, *c) == slot(s@.subrange(0, i as int), *c),
        decreases i,
    {
        assert(s@.subrange(0, i as int).drop_last() =~= s@.subrange(0, i - 1));
        let k = to_lower(s[i - 1].name.as_str());
        if in_order(k.as_str(), key.as_str()) {
            return i;
        }
        i -= 1;
    }
    0
}

/// Put catalogs in alphabetical order.
pub fn sort_catalogs(s: Vec<Catalog>) -> (r: Vec<Catalog>)
    ensures
        r@ == arranged(s@),
{
    let ghost all = s@;
    let mut rest = s;
    let mut out: Vec<Catalog> = Vec::new();
    let ghost mut n: int = 0;
    while rest.len() > 0
        invariant
            0 <= n <= all.len(),
            rest@ =~= all.subrange(n, all.len() as int),
            out@ == arranged(all.subrange(0, n)),
        decreases rest@.len(),
    {
        let c = rest.remove(0);
        assert(all.subrange(0, n + 1).drop_last() =~= all.subrange(0, n));
        assert(all.subrange(0, n + 1).last() == c);
        let p = find_slot(&out, &c);
        out.insert(p, c);
        proof {
            n = n + 1;
        }
    }
    assert(all.subrange(0, n) =~= all);
    out
}

// --- the selection -------------------------------------------------------------------

/// The first catalog at this address from `i` on, or the end.
pub open spec fn url_at(s: Seq<Catalog>, url: Seq<char>, i: int) -> int
    decreases s.len() - i,
{
    if i >= s.len() {
        s.len() as int
    } else if s[i].url@ == url {
        i
    } else {
        url_at(s, url, i + 1)
    }
}

fn find_url(s: &Vec<Catalog>, url: &str) -> (r: Option<usize>)
    ensures
        match r {
            Some(i) => i < s@.len() && i == url_at(s@, url@, 0),
            None => url_at(s@, url@, 0) == s@.len(),
        },
{
    let mut i: usize = 0;
    while i < s.len()
        invariant
            i <= s@.len(),
            url_at(s@, url@, 0) == url_at(s@, url@, i as int),
        decreases s@.len() - i,
    {
        if same(s[i].url.as_str(), url) {
            return Some(i);
        }
        i += 1;
    }
    None
}

proof fn url_is_found(s: Seq<Catalog>, url: Seq<char>, i: int)
    requires
        0 <= i <= s.len(),
    ensures
        i <= url_at(s, url, i) <= s.len(),
        url_at(s, url, i) < s.len() ==> s[url_at(s, url, i)].url@ == url,
        forall|k: int| i <= k < url_at(s, url, i) ==> (#[trigger] s[k]).url@ != url,
    decreases s.len() - i,
{
    if i < s.len() && s[i].url@ != url {
        url_is_found(s, url, i + 1);
    }
}

/// The selection after session entry `i` was kept: it follows the entry to
/// the saved list, and its neighbours to their new places.
pub open spec fn kept_selection(sel: Option<Selected>, i: usize, saved: Seq<Catalog>, url: Seq<char>) -> Option<
    Selected,
> {
    match sel {
        Some(s) => if s.saved || s.index < i {
            sel
        } else if s.index == i {
            let k = url_at(saved, url, 0);
            if k < saved.len() {
                Some(Selected { saved: true, index: k as usize })
            } else {
                None
            }
        } else {
            Some(Selected { saved: false, index: (s.index - 1) as usize })
        },
        None => None,
    }
}

/// The browser after session entry `i` was kept for good at `stamp`.
pub open spec fn kept(b: CatalogBrowser, i: usize, stamp: Option<u64>, r: CatalogBrowser) -> bool {
    let c = Catalog { added_on: stamp, ..b.session@[i as int] };
    &&& r.session@ == b.session@.remove(i as int)
    &&& r.saved@ == arranged(b.saved@.push(c))
    &&& r.sel == kept_selection(b.sel, i, r.saved@, c.url@)
    &&& r == (CatalogBrowser { session: r.session, saved: r.saved, sel: r.sel, ..b })
}

/// The browser after a catalog was forgotten.
pub open spec fn forgotten(b: CatalogBrowser, saved: bool, i: usize, r: CatalogBrowser) -> bool {
    let gone = b.sel == Some(Selected { saved, index: i });
    &&& r.saved@ == if saved {
        b.saved@.remove(i as int)
    } else {
        b.saved@
    }
    &&& r.session@ == if saved {
        b.session@
    } else {
        b.session@.remove(i as int)
    }
    &&& r.sel == match b.sel {
        Some(s) => if s.saved != saved || s.index < i {
            b.sel
        } else if s.index == i {
            None
        } else {
            Some(Selected { saved, index: (s.index - 1) as usize })
        },
        None => None,
    }
    &&& r.dcat == if gone {
        None
    } else {
        b.dcat
    }
    &&& r == (CatalogBrowser {
        session: r.session,
        saved: r.saved,
        sel: r.sel,
        dcat: r.dcat,
        ..b
    })
}

/// The catalog a selection points at.
pub open spec fn selected_of(b: CatalogBrowser) -> Option<Catalog> {
    match b.sel {
        Some(s) => if s.saved {
            if s.index < b.saved@.len() {
                Some(b.saved@[s.index as int])
            } else {
                None
            }
        } else if s.index < b.session@.len() {
            Some(b.session@[s.index as int])
        } else {
            None
        },
        None => None,
    }
}

/// No two catalogs of a list are at the same address.
pub open spec fn distinct_urls(s: Seq<Catalog>) -> bool {
    forall|i: int, j: int|
        0 <= i < j < s.len() ==> (#[trigger] s[i]).url@ != (#[trigger] s[j]).url@
}

/// Keeping an entry for good never changes which catalog is selected from
/// the session's list: the selection still points at the same portal, under
/// the same name.
pub proof fn keeping_keeps_the_selection(b: CatalogBrowser, i: usize, stamp: Option<u64>, r: CatalogBrowser)
    requires
        i < b.session@.len(),
        kept(b, i, stamp, r),
        b.sel matches Some(s) && !s.saved && s.index < b.session@.len(),
        forall|k: int| 0 <= k < b.saved@.len() ==> (#[trigger] b.saved@[k]).url@ != b.session@[i as int].url@,
        b.saved@.len() < usize::MAX,
    ensures
        selected_of(r) matches Some(c) && c.url@ == selected_of(b)->0.url@ && c.name == selected_of(b)->0.name,
{
    let c = Catalog { added_on: stamp, ..b.session@[i as int] };
    let s = b.sel->0;
    if s.index == i {
        let all = b.saved@.push(c);
        arranged_is_alphabetical(all);
        broadcast use vstd::seq_lib::group_to_multiset_ensures;

        assert(all[all.len() - 1] == c);
        assert(all.contains(c));
        assert(all.to_multiset().count(c) > 0);
        assert(r.saved@.contains(c));
        let at = choose|k: int| 0 <= k < r.saved@.len() && r.saved@[k] == c;
        url_is_found(r.saved@, c.url@, 0);
        let k = url_at(r.saved@, c.url@, 0);
        assert(k < r.saved@.len()) by {
            if k >= r.saved@.len() {
                assert(r.saved@[at].url@ != c.url@);
            }
        }
        // the only entry of that address is the one kept
        let found = r.saved@[k];
        assert(r.saved@.contains(found));
        assert(all.to_multiset().count(found) > 0);
        assert(all.contains(found));
        let m = choose|m: int| 0 <= m < all.len() && all[m] == found;
        if m < b.saved@.len() {
            assert(b.saved@[m] == found);
        }
        assert(found == c);
    }
}

impl CatalogBrowser {
    /// The dialog as it opens.
    pub fn open(saved: Vec<Catalog>, session: Vec<Catalog>) -> (r: CatalogBrowser)
        ensures
            r.saved == saved,
            r.session == session,
            r.sel is None,
            r.dcat is None,
            r.checked@.len() == 0,
            r.add_url@ == Seq::<char>::empty(),
            r.filter@ == Seq::<char>::empty(),
            !r.geo_only,
            r.generation == 0,
    {
        CatalogBrowser {
            saved,
            session,
            sel: None,
            add_url: String::new(),
            dcat: None,
            checked: Vec::new(),
            filter: String::new(),
            geo_only: false,
            generation: 0,
        }
    }

    /// See [`selected_of`].
    pub fn selected_catalog(&self) -> (r: Option<&Catalog>)
        ensures
            match r {
                Some(c) => selected_of(*self) == Some(*c),
                None => selected_of(*self) is None,
            },
    {
        match self.sel {
            Some(s) => if s.saved {
                if s.index < self.saved.len() {
                    Some(&self.saved[s.index])
                } else {
                    None
                }
            } else if s.index < self.session.len() {
                Some(&self.session[s.index])
            } else {
                None
            },
            None => None,
        }
    }

    /// Move session entry `i` to the saved list, stamped with the moment it
    /// was kept, and keep the selection pointing at it. The saved list stays
    /// alphabetical; it has to be written out then.
    pub fn save_for_good_at(&mut self, i: usize, stamp: Option<u64>)
        requires
            i < old(self).session@.len(),
        ensures
            kept(*old(self), i, stamp, *final(self)),
    {
        let mut c = self.session.remove(i);
        c.added_on = stamp;
        let url = c.url.clone();
        let mut all: Vec<Catalog> = Vec::new();
        std::mem::swap(&mut all, &mut self.saved);
        all.push(c);
        self.saved = sort_catalogs(all);
        let found = find_url(&self.saved, url.as_str());
        if let Some(s) = self.sel {
            if !s.saved {
                if s.index == i {
                    self.sel = match found {
                        Some(k) => Some(Selected { saved: true, index: k }),
                        None => None,
                    };
                } else if s.index > i {
                    self.sel = Some(Selected { saved: false, index: s.index - 1 });
                }
            }
        }
    }

    /// [`Self::save_for_good_at`] now.
    pub fn save_for_good(&mut self, i: usize)
        requires
            i < old(self).session@.len(),
        ensures
            exists|stamp: Option<u64>| kept(*old(self), i, stamp, *final(self)),
    {
        let stamp = epoch_seconds();
        self.save_for_good_at(i, stamp);
    }

    /// Forget entry `i` of the saved list or of the session's.
    pub fn forget(&mut self, saved: bool, i: usize)
        requires
            saved ==> i < old(self).saved@.len(),
            !saved ==> i < old(self).session@.len(),
        ensures
            forgotten(*old(self), saved, i, *final(self)),
    {
        if saved {
            self.saved.remove(i);
        } else {
            self.session.remove(i);
        }
        if let Some(s) = self.sel {
            if s.saved == saved {
                if s.index == i {
                    self.sel = None;
                    self.dcat = None;
                } else if s.index > i {
                    self.sel = Some(Selected { saved, index: s.index - 1 });
                }
            }
        }
    }

    /// Select a catalog; its datasets have to be fetched then.
    pub fn select(&mut self, sel: Selected)
        ensures
            final(self).filter@ == Seq::<char>::empty(),
            *final(self) == (CatalogBrowser {
                sel: Some(sel),
                filter: final(self).filter,
                ..*old(self)
            }),
    {
        self.sel = Some(sel);
        self.filter = String::new();
    }
}

// --- adding a portal -------------------------------------------------------------------

/// The address of a portal, from one pasted with or without `/data.json`.
pub open spec fn portal_base(url: Seq<char>) -> Seq<char> {
    let t = without_trailing(trimmed(url), '/');
    without_trailing(
        if "/data.json"@.is_suffix_of(t) {
            t.subrange(0, t.len() - "/data.json"@.len())
        } else {
            t
        },
        '/',
    )
}

/// The name a portal goes by until its catalog answers.
pub open spec fn provisional_name(base: Seq<char>) -> Seq<char> {
    without_prefixes(without_prefixes(base, "https://"@), "http://"@)
}

/// The browser after a portal was opened: selected where it is listed, and
/// added for the session where it is not.
pub open spec fn portal_opened(b: CatalogBrowser, base: Seq<char>, r: CatalogBrowser) -> bool {
    let i = url_at(b.saved@, base, 0);
    let j = url_at(b.session@, base, 0);
    &&& r == (CatalogBrowser { session: r.session, sel: r.sel, ..b })
    &&& if i < b.saved@.len() {
        r.sel == Some(Selected { saved: true, index: i as usize }) && r.session@ == b.session@
    } else if j < b.session@.len() {
        r.sel == Some(Selected { saved: false, index: j as usize }) && r.session@ == b.session@
    } else {
        &&& r.sel == Some(Selected { saved: false, index: b.session@.len() as usize })
        &&& r.session@.len() == b.session@.len() + 1
        &&& r.session@.drop_last() == b.session@
        &&& r.session@.last().url@ == base
        &&& r.session@.last().name@ == provisional_name(base)
        &&& r.session@.last().added_on is None
    }
}

impl CatalogBrowser {
    /// Open a portal by its address.
    pub fn open_portal(&mut self, url: &str)
        ensures
            portal_opened(*old(self), portal_base(url@), *final(self)),
    {
        let t = trim(url);
        let t = trim_trailing(t.as_str(), '/');
        let base = match strip_suffix(t.as_str(), "/data.json") {
            Some(b) => b,
            None => t,
        };
        let base = trim_trailing(base.as_str(), '/');
        if let Some(i) = find_url(&self.saved, base.as_str()) {
            self.sel = Some(Selected { saved: true, index: i });
            return;
        }
        if let Some(i) = find_url(&self.session, base.as_str()) {
            self.sel = Some(Selected { saved: false, index: i });
            return;
        }
        proof {
            reveal_strlit("https://");
            reveal_strlit("http://");
        }
        let name = trim_prefixes(base.as_str(), "https://");
        let name = trim_prefixes(name.as_str(), "http://");
        let at: usize = self.session.len();
        let ghost before = self.session@;
        self.session.push(Catalog { name, url: base, added_on: None });
        assert(self.session@.drop_last() =~= before);
        self.sel = Some(Selected { saved: false, index: at });
    }

    /// Start fetching the selected portal's catalog: what was fetched before
    /// is dropped, and an answer to an earlier request will be. The number of
    /// this request and the address are returned, where one is selected.
    pub fn begin_fetch(&mut self) -> (r: Option<(u64, String)>)
        ensures
            final(self).checked@.len() == 0,
            *final(self) == (CatalogBrowser {
                generation: old(self).generation.wrapping_add(1),
                dcat: None,
                checked: final(self).checked,
                ..*old(self)
            }),
            match r {
                Some((g, url)) => g == final(self).generation && selected_of(*old(self)) is Some
                    && url == selected_of(*old(self))->0.url,
                None => selected_of(*old(self)) is None,
            },
    {
        self.generation = self.generation.wrapping_add(1);
        self.dcat = None;
        self.checked = Vec::new();
        let g: u64 = self.generation;
        match self.selected_catalog() {
            Some(c) => Some((g, c.url.clone())),
            None => None,
        }
    }

    /// Take in a catalog that was fetched. An answer to an earlier request is
    /// dropped; a session entry takes the name the catalog gives itself.
    pub fn on_catalog(&mut self, generation: u64, res: Result<DcatCatalog, String>)
        ensures
            if generation != old(self).generation {
                *final(self) == *old(self)
            } else {
                &&& final(self).dcat == Some(res)
                &&& final(self).checked@.len() == 0
                &&& *final(self) == (CatalogBrowser {
                    dcat: final(self).dcat,
                    checked: final(self).checked,
                    session: final(self).session,
                    ..*old(self)
                })
                &&& final(self).session@ == match (res, old(self).sel) {
                    (Ok(cat), Some(s)) => if !s.saved && s.index < old(self).session@.len()
                        && cat.title is Some {
                        old(self).session@.update(
                            s.index as int,
                            Catalog {
                                name: cat.title->0,
                                ..old(self).session@[s.index as int]
                            },
                        )
                    } else {
                        old(self).session@
                    },
                    _ => old(self).session@,
                }
            },
    {
        if generation != self.generation {
            return;
        }
        let ghost before = self.session@;
        if let Ok(cat) = &res {
            if let Some(s) = self.sel {
                if !s.saved && s.index < self.session.len() {
                    if let Some(t) = &cat.title {
                        self.session[s.index].name = t.clone();
                        assert(self.session@ =~= before.update(
                            s.index as int,
                            Catalog { name: *t, ..before[s.index as int] },
                        ));
                    }
                }
            }
        }
        self.dcat = Some(res);
        self.checked = Vec::new();
    }
}

/// Whether an address can be added: it names a web site.
pub fn is_web_address(url: &str) -> (r: bool)
    ensures
        r == ("https://"@.is_prefix_of(url@) || "http://"@.is_prefix_of(url@)),
{
    starts_with(url, "https://") || starts_with(url, "http://")
}

/// Opening a portal lists it once: where no address is listed twice, none is
/// afterwards, and the selected entry is the portal's.
pub proof fn a_portal_is_listed_once(b: CatalogBrowser, base: Seq<char>, r: CatalogBrowser)
    requires
        portal_opened(b, base, r),
        distinct_urls(b.saved@ + b.session@),
        b.saved@.len() <= usize::MAX,
        b.session@.len() < usize::MAX,
    ensures
        distinct_urls(r.saved@ + r.session@),
        selected_of(r) matches Some(c) && c.url@ == base,
{
    url_is_found(b.saved@, base, 0);
    url_is_found(b.session@, base, 0);
    let before = b.saved@ + b.session@;
    let after = r.saved@ + r.session@;
    if r.session@ != b.session@ {
        let n = b.session@.len() as int;
        assert forall|i: int, j: int| 0 <= i < j < after.len() implies (#[trigger] after[i]).url@ != (
        #[trigger] after[j]).url@ by {
            assert(forall|k: int| 0 <= k < n ==> #[trigger] r.session@[k] == r.session@.drop_last()[k]);
            assert(after[i] == before[i]);
            if j < before.len() {
                assert(after[j] == before[j]);
            } else {
                assert(after[j] == r.session@.last());
                if i < b.saved@.len() {
                    assert(b.saved@[i].url@ != base);
                } else {
                    assert(b.session@[i - b.saved@.len()].url@ != base);
                }
            }
        }
    }
}

// --- the dataset list ------------------------------------------------------------------

/// The dataset says `needle` in its title, description or keywords.
pub open spec fn mentions(d: DcatDataset, needle: Seq<char>) -> bool {
    ||| needle.len() == 0
    ||| occurs(needle, lowercase(d.title@))
    ||| occurs(needle, lowercase(d.description@))
    ||| exists|k: int| 0 <= k < d.keywords@.len() && occurs(needle, lowercase(#[trigger] d.keywords@[k]@))
}

/// Some format of the dataset opens as a layer.
pub open spec fn mappable(d: DcatDataset) -> bool {
    exists|k: int| 0 <= k < d.distributions@.len() && (#[trigger] d.distributions@[k]).format != DcatFormat::Csv
}

/// The dataset is listed under a search.
pub open spec fn listed(d: DcatDataset, filter: Seq<char>, geo_only: bool) -> bool {
    mentions(d, lowercase(filter)) && (geo_only ==> mappable(d))
}

/// See [`listed`].
pub fn is_listed(d: &DcatDataset, filter: &str, geo_only: bool) -> (r: bool)
    ensures
        r == listed(*d, filter@, geo_only),
{
    if geo_only {
        let mut any = false;
        let mut k: usize = 0;
        while k < d.distributions.len()
            invariant
                k <= d.distributions@.len(),
                any == exists|j: int| 0 <= j < k && (#[trigger] d.distributions@[j]).format != DcatFormat::Csv,
            decreases d.distributions@.len() - k,
        {
            if d.distributions[k].format != DcatFormat::Csv {
                any = true;
            }
            k += 1;
        }
        if !any {
            return false;
        }
    }
    let needle = to_lower(filter);
    if needle.as_str().is_empty() {
        return true;
    }
    let title = to_lower(d.title.as_str());
    if contains(title.as_str(), needle.as_str()) {
        return true;
    }
    let description = to_lower(d.description.as_str());
    if contains(description.as_str(), needle.as_str()) {
        return true;
    }
    let mut k: usize = 0;
    while k < d.keywords.len()
        invariant
            k <= d.keywords@.len(),
            needle@ == lowercase(filter@),
            forall|j: int| 0 <= j < k ==> !occurs(needle@, lowercase(#[trigger] d.keywords@[j]@)),
            geo_only ==> mappable(*d),
        decreases d.keywords@.len() - k,
    {
        let word = to_lower(d.keywords[k].as_str());
        if contains(word.as_str(), needle.as_str()) {
            return true;
        }
        k += 1;
    }
    false
}

/// Strictly ascending numbers.
pub open spec fn ascending(v: Seq<usize>) -> bool {
    forall|i: int, j: int| 0 <= i < j < v.len() ==> v[i] < v[j]
}

/// The positions up to `n` of the datasets a search lists.
pub open spec fn listed_first(ds: Seq<DcatDataset>, filter: Seq<char>, geo_only: bool, n: nat) -> Seq<usize>
    decreases n,
{
    if n == 0 {
        Seq::empty()
    } else {
        let before = listed_first(ds, filter, geo_only, (n - 1) as nat);
        if listed(ds[n - 1], filter, geo_only) {
            before.push((n - 1) as usize)
        } else {
            before
        }
    }
}

impl CatalogBrowser {
    /// The positions of the datasets to list; none while there is no catalog.
    pub fn shown(&self) -> (r: Vec<usize>)
        ensures
            r@ == match self.dcat {
                Some(Ok(cat)) => listed_first(
                    cat.datasets@,
                    self.filter@,
                    self.geo_only,
                    cat.datasets@.len(),
                ),
                _ => Seq::empty(),
            },
    {
        let mut out: Vec<usize> = Vec::new();
        if let Some(Ok(cat)) = &self.dcat {
            let n: usize = cat.datasets.len();
            let mut i: usize = 0;
            while i < n
                invariant
                    i <= n,
                    n == cat.datasets@.len(),
                    out@ == listed_first(cat.datasets@, self.filter@, self.geo_only, i as nat),
                decreases n - i,
            {
                if is_listed(&cat.datasets[i], self.filter.as_str(), self.geo_only) {
                    out.push(i);
                }
                i += 1;
            }
        }
        out
    }

    /// Tick or untick a dataset.
    pub fn toggle(&mut self, at: usize, on: bool)
        requires
            ascending(old(self).checked@),
        ensures
            ascending(final(self).checked@),
            forall|x: usize| #[trigger]
                final(self).checked@.contains(x) <==> if x == at {
                    on
                } else {
                    old(self).checked@.contains(x)
                },
            *final(self) == (CatalogBrowser { checked: final(self).checked, ..*old(self) }),
    {
        let ghost before = self.checked@;
        let mut p: usize = 0;
        while p < self.checked.len() && self.checked[p] < at
            invariant
                p <= self.checked@.len(),
                self.checked@ == before,
                ascending(before),
                *self == *old(self),
                forall|k: int| 0 <= k < p ==> #[trigger] before[k] < at,
            decreases self.checked@.len() - p,
        {
            p += 1;
        }
        let there = p < self.checked.len() && self.checked[p] == at;
        if on && !there {
            self.checked.insert(p, at);
            assert(self.checked@ =~= before.insert(p as int, at));
            assert forall|x: usize| #[trigger] self.checked@.contains(x) <==> x == at || before.contains(x) by {
                let now = self.checked@;
                if before.contains(x) {
                    let k = choose|k: int| 0 <= k < before.len() && before[k] == x;
                    if k < p {
                        assert(now[k] == x);
                    } else {
                        assert(now[k + 1] == x);
                    }
                }
                if x == at {
                    assert(now[p as int] == x);
                }
                if now.contains(x) && x != at {
                    let k = choose|k: int| 0 <= k < now.len() && now[k] == x;
                    if k < p {
                        assert(before[k] == x);
                    } else {
                        assert(before[k - 1] == x);
                    }
                }
            }
        } else if !on && there {
            self.checked.remove(p);
            assert(self.checked@ =~= before.remove(p as int));
            assert forall|x: usize| #[trigger] self.checked@.contains(x) <==> x != at && before.contains(x) by {
                let now = self.checked@;
                if before.contains(x) && x != at {
                    let k = choose|k: int| 0 <= k < before.len() && before[k] == x;
                    if k < p {
                        assert(now[k] == x);
                    } else {
                        assert(now[k - 1] == x);
                    }
                }
                if now.contains(x) {
                    let k = choose|k: int| 0 <= k < now.len() && now[k] == x;
                    if k < p {
                        assert(before[k] == x);
                    } else {
                        assert(before[k + 1] == x);
                    }
                }
            }
        } else if there {
            assert(before[p as int] == at);
        } else {
            assert(!before.contains(at));
        }
    }

    /// The datasets to open, in list order; none is ticked any more.
    pub fn take_checked(&mut self) -> (r: Vec<usize>)
        ensures
            r@ == old(self).checked@,
            final(self).checked@.len() == 0,
            *final(self) == (CatalogBrowser { checked: final(self).checked, ..*old(self) }),
    {
        let mut out: Vec<usize> = Vec::new();
        std::mem::swap(&mut out, &mut self.checked);
        out
    }
}

/// The rows of the saved list in the order they are drawn: the ordinary ones,
/// then those of the states section, each in list order.
pub open spec fn rows_where(is_state: Seq<bool>, want: bool, n: nat) -> Seq<usize>
    decreases n,
{
    if n == 0 {
        Seq::empty()
    } else if is_state[n - 1] == want {
        rows_where(is_state, want, (n - 1) as nat).push((n - 1) as usize)
    } else {
        rows_where(is_state, want, (n - 1) as nat)
    }
}

/// See [`rows_where`].
pub fn row_order(is_state: &Vec<bool>) -> (r: Vec<usize>)
    ensures
        r@ == rows_where(is_state@, false, is_state@.len()) + rows_where(
            is_state@,
            true,
            is_state@.len(),
        ),
{
    let mut out: Vec<usize> = Vec::new();
    let mut states: Vec<usize> = Vec::new();
    let n: usize = is_state.len();
    let mut i: usize = 0;
    while i < n
        invariant
            i <= n,
            n == is_state@.len(),
            out@ == rows_where(is_state@, false, i as nat),
            states@ == rows_where(is_state@, true, i as nat),
        decreases n - i,
    {
        if is_state[i] {
            states.push(i);
        } else {
            out.push(i);
        }
        i += 1;
    }
    out.append(&mut states);
    out
}

// --- opening a dataset ------------------------------------------------------------------

/// How a dataset is opened.
#[derive(Debug)]
pub enum PortalOpen {
    Nothing,
    /// As an attribute table, read where it is.
    Table { url: String, title: String },
    /// As a layer, read where it is.
    Layer { url: String, title: String },
    /// Downloaded first, then imported.
    Download { url: String, title: String, format: DcatFormat },
}

/// Formats whose readers take a file.
pub open spec fn downloads(f: DcatFormat) -> bool {
    f is GeoPackage || f is GeoJson
}

impl DcatFormat {
    /// See [`downloads`].
    pub fn needs_download(self) -> (r: bool)
        ensures
            r == downloads(self),
    {
        match self {
            DcatFormat::GeoPackage | DcatFormat::GeoJson => true,
            _ => false,
        }
    }
}

impl CatalogBrowser {
    /// How to open a dataset of the list: through its best format.
    pub fn open_dataset(&self, at: usize) -> (r: PortalOpen)
        ensures
            match (selected_of(*self), self.dcat) {
                (Some(_), Some(Ok(cat))) => if at < cat.datasets@.len()
                    && cat.datasets@[at as int].distributions@.len() > 0 {
                    let d = cat.datasets@[at as int];
                    let dist = d.distributions@[0];
                    r == if downloads(dist.format) {
                        PortalOpen::Download { url: dist.url, title: d.title, format: dist.format }
                    } else if dist.format is Csv {
                        PortalOpen::Table { url: dist.url, title: d.title }
                    } else {
                        PortalOpen::Layer { url: dist.url, title: d.title }
                    }
                } else {
                    r is Nothing
                },
                _ => r is Nothing,
            },
    {
        if self.selected_catalog().is_none() {
            return PortalOpen::Nothing;
        }
        match &self.dcat {
            Some(Ok(cat)) => {
                if at >= cat.datasets.len() {
                    return PortalOpen::Nothing;
                }
                let d = &cat.datasets[at];
                if d.distributions.len() == 0 {
                    return PortalOpen::Nothing;
                }
                let dist = &d.distributions[0];
                let url = dist.url.clone();
                let title = d.title.clone();
                if dist.format.needs_download() {
                    PortalOpen::Download { url, title, format: dist.format }
                } else if dist.format == DcatFormat::Csv {
                    PortalOpen::Table { url, title }
                } else {
                    PortalOpen::Layer { url, title }
                }
            },
            _ => PortalOpen::Nothing,
        }
    }
}

/// How the file of a dataset is come by.
#[derive(Clone, Copy, PartialEq, Eq, Structural, Debug)]
pub enum DownloadStep {
    /// There is no place to keep it.
    NoPlace,
    /// It was downloaded before: import it.
    Import,
    Fetch,
}

/// Decide how the file of a dataset is come by: `place` says that there is a
/// directory for it, `there` that the file is in it. A copy kept from an
/// earlier session is not fetched again.
pub fn download_step(place: bool, there: bool) -> (r: DownloadStep)
    ensures
        r == if !place {
            DownloadStep::NoPlace
        } else if there {
            DownloadStep::Import
        } else {
            DownloadStep::Fetch
        },
{
    if !place {
        DownloadStep::NoPlace
    } else if there {
        DownloadStep::Import
    } else {
        DownloadStep::Fetch
    }
}

/// What is said where there is no place for downloads.
pub fn no_place_text() -> (r: &'static str)
    ensures
        r@ == "no config directory to download portal datasets into"@,
{
    "no config directory to download portal datasets into"
}

/// The file a dataset is downloaded to.
pub fn download_name(slug: &str, ext: &str) -> (r: String)
    ensures
        r@ == slug@ + "."@ + ext@,
{
    cat3(slug, ".", ext)
}

// --- texts ---------------------------------------------------------------------------------

/// "n word" or "n words".
pub open spec fn counted_word(n: nat, verb: Seq<char>, word: Seq<char>) -> Seq<char> {
    verb + decimal(n) + " "@ + word + if n == 1 {
        Seq::<char>::empty()
    } else {
        "s"@
    }
}

/// See [`counted_word`].
pub fn count_label(n: usize, verb: &str, word: &str) -> (r: String)
    ensures
        r@ == counted_word(n as nat, verb@, word@),
{
    let d = dec(n as u64);
    let mut t = cat4(verb, d.as_str(), " ", word);
    if n != 1 {
        t.append("s");
    }
    assert(n == 1 ==> t@ =~= t@ + Seq::<char>::empty());
    t
}

/// Characters of a description a tooltip shows.
pub const DESCRIPTION_CHARS: usize = 400;

/// Everything a dataset says about itself, before trailing white space goes.
pub open spec fn hover_lines(d: DcatDataset) -> Seq<char> {
    (if d.description@.len() == 0 {
        Seq::<char>::empty()
    } else if d.description@.len() <= DESCRIPTION_CHARS {
        d.description@ + "\n\n"@
    } else {
        d.description@.subrange(0, DESCRIPTION_CHARS as int) + "…"@ + "\n\n"@
    }) + (match d.publisher {
        Some(p) => "Publisher: "@ + p@ + "\n"@,
        None => Seq::empty(),
    }) + (match d.license {
        Some(l) => "License: "@ + l@ + "\n"@,
        None => Seq::empty(),
    }) + (match d.extent {
        Some(b) => "Extent: "@ + b.west@ + ", "@ + b.south@ + " → "@ + b.east@ + ", "@ + b.north@
            + "\n"@,
        None => Seq::empty(),
    }) + (if d.keywords@.len() > 0 {
        "Keywords: "@ + joined(texts(d.keywords@), ", "@) + "\n"@
    } else {
        Seq::empty()
    })
}

/// Everything a dataset says about itself, for its tooltip.
pub fn dcat_hover(d: &DcatDataset) -> (r: String)
    ensures
        r@ == trimmed_end(hover_lines(*d)),
{
    let mut out = String::new();
    if !d.description.as_str().is_empty() {
        let part = take_chars(d.description.as_str(), DESCRIPTION_CHARS);
        out.append(part.as_str());
        if d.description.as_str().unicode_len() > DESCRIPTION_CHARS {
            out.append("…");
        }
        out.append("\n\n");
    }
    let ghost g1 = out@;
    assert(g1 =~= (if d.description@.len() == 0 {
        Seq::<char>::empty()
    } else if d.description@.len() <= DESCRIPTION_CHARS {
        d.description@ + "\n\n"@
    } else {
        d.description@.subrange(0, DESCRIPTION_CHARS as int) + "…"@ + "\n\n"@
    }));
    if let Some(p) = &d.publisher {
        let line = cat3("Publisher: ", p.as_str(), "\n");
        out.append(line.as_str());
    }
    let ghost g2 = out@;
    assert(g2 =~= g1 + (match d.publisher {
        Some(p) => "Publisher: "@ + p@ + "\n"@,
        None => Seq::<char>::empty(),
    }));
    if let Some(l) = &d.license {
        let line = cat3("License: ", l.as_str(), "\n");
        out.append(line.as_str());
    }
    let ghost g3 = out@;
    assert(g3 =~= g2 + (match d.license {
        Some(l) => "License: "@ + l@ + "\n"@,
        None => Seq::<char>::empty(),
    }));
    if let Some(b) = &d.extent {
        let mut line = cat4("Extent: ", b.west.as_str(), ", ", b.south.as_str());
        line.append(" → ");
        line.append(b.east.as_str());
        line.append(", ");
        line.append(b.north.as_str());
        line.append("\n");
        out.append(line.as_str());
    }
    let ghost g4 = out@;
    assert(g4 =~= g3 + (match d.extent {
        Some(b) => "Extent: "@ + b.west@ + ", "@ + b.south@ + " → "@ + b.east@ + ", "@ + b.north@
            + "\n"@,
        None => Seq::<char>::empty(),
    }));
    if d.keywords.len() > 0 {
        let words = join(&d.keywords, ", ");
        let line = cat3("Keywords: ", words.as_str(), "\n");
        out.append(line.as_str());
    }
    assert(out@ =~= hover_lines(*d));
    trim_end(out.as_str())
}

/// "GeoPackage · CSV".
pub fn format_badges(d: &DcatDataset) -> (r: String)
    ensures
        r@ == joined(d.distributions@.map_values(|x: Distribution| x.label@), " · "@),
{
    let mut parts: Vec<String> = Vec::new();
    let ghost all = d.distributions@.map_values(|x: Distribution| x.label@);
    let mut k: usize = 0;
    while k < d.distributions.len()
        invariant
            k <= d.distributions@.len(),
            all == d.distributions@.map_values(|x: Distribution| x.label@),
            texts(parts@) =~= all.subrange(0, k as int),
        decreases d.distributions@.len() - k,
    {
        push_text(&mut parts, d.distributions[k].label.clone());
        assert(all.subrange(0, k + 1) =~= all.subrange(0, k as int).push(all[k as int]));
        k += 1;
    }
    assert(all.subrange(0, k as int) =~= all);
    join(&parts, " · ")
}

/// What is said of a catalog none of whose datasets can be opened.
pub fn nothing_openable(hidden: usize) -> (r: String)
    ensures
        r@ == "none of this catalog's "@ + decimal(hidden as nat)
            + " datasets publish a format this app can open — GeoParquet, GeoPackage, GeoJSON or CSV. Map services and web pages are all it offers."@,
{
    let n = dec(hidden as u64);
    cat3(
        "none of this catalog's ",
        n.as_str(),
        " datasets publish a format this app can open — GeoParquet, GeoPackage, GeoJSON or CSV. Map services and web pages are all it offers.",
    )
}

/// A search lists every dataset that says what is searched for in its title,
/// its description or a keyword, whatever the case, and no other; asked for map
/// data it leaves out those that come as tables alone.
pub proof fn a_search_lists_what_it_finds(
    ds: Seq<DcatDataset>,
    filter: Seq<char>,
    geo_only: bool,
    n: nat,
)
    requires
        n <= ds.len() <= usize::MAX,
    ensures
        lists(
            listed_first(ds, filter, geo_only, n),
            n,
            |i: int| (lowercase(filter).len() == 0 || occurs(lowercase(filter), lowercase(ds[i].title@)) || occurs(lowercase(filter), lowercase(ds[i].description@)) || (exists|k: int| 0 <= k < ds[i].keywords@.len() && occurs(lowercase(filter), lowercase(#[trigger] ds[i].keywords@[k]@)))) && (!geo_only || exists|k: int| 0 <= k < ds[i].distributions@.len() && !((#[trigger] ds[i].distributions@[k]).format is Csv)),
            |i: int| i as usize,
        ),
    decreases n,
{
    if n > 0 {
        a_search_lists_what_it_finds(ds, filter, geo_only, (n - 1) as nat);
        lists_one_more(
            listed_first(ds, filter, geo_only, (n - 1) as nat),
            listed_first(ds, filter, geo_only, n),
            (n - 1) as nat,
            |i: int| (lowercase(filter).len() == 0 || occurs(lowercase(filter), lowercase(ds[i].title@)) || occurs(lowercase(filter), lowercase(ds[i].description@)) || (exists|k: int| 0 <= k < ds[i].keywords@.len() && occurs(lowercase(filter), lowercase(#[trigger] ds[i].keywords@[k]@)))) && (!geo_only || exists|k: int| 0 <= k < ds[i].distributions@.len() && !((#[trigger] ds[i].distributions@[k]).format is Csv)),
            |i: int| i as usize,
        );
    }
}

/// The rows of a section are those that belong to it, in list order.
pub proof fn rows_are_drawn_by_section(
    is_state: Seq<bool>,
    want: bool,
    n: nat,
)
    requires
        n <= is_state.len() <= usize::MAX,
    ensures
        lists(
            rows_where(is_state, want, n),
            n,
            |i: int| is_state[i] == want,
            |i: int| i as usize,
        ),
    decreases n,
{
    if n > 0 {
        rows_are_drawn_by_section(is_state, want, (n - 1) as nat);
        lists_one_more(
            rows_where(is_state, want, (n - 1) as nat),
            rows_where(is_state, want, n),
            (n - 1) as nat,
            |i: int| is_state[i] == want,
            |i: int| i as usize,
        );
    }
}

proof fn trimmed_already(s: Seq<char>)
    requires
        s.len() > 0,
        !white(s[0]),
        !white(s.last()),
    ensures
        trimmed(s) == s,
{
    let (a, b) = trimming_takes_white_ends(s);
    if b < s.len() {
        assert(white(s[s.len() - 1]));
    }
    if a > 0 {
        assert(white(s[0]));
    }
    assert(s.subrange(0, s.len() as int) =~= s);
}

/// A portal's address is the same however it was pasted: bare, with a slash, or
/// with the name of its catalog.
pub proof fn a_portal_has_one_address(base: Seq<char>)
    requires
        base.len() > 0,
        !white(base[0]),
        !white(base.last()),
        base.last() != '/',
        !"/data.json"@.is_suffix_of(base),
    ensures
        portal_base(base) == base,
        portal_base(base + "/"@) == base,
        portal_base(base + "/data.json"@) == base,
{
    reveal_strlit("/");
    reveal_strlit("/data.json");
    let empty = Seq::<char>::empty();
    trimmed_already(base);
    a_tail_is_taken_off(base, empty, '/');
    assert(base + empty =~= base);
    let b = base + "/"@;
    assert(b.last() == '/' && b[0] == base[0]);
    trimmed_already(b);
    a_tail_is_taken_off(base, "/"@, '/');
    let c = base + "/data.json"@;
    assert(c.last() == 'n' && c[0] == base[0]);
    trimmed_already(c);
    a_tail_is_taken_off(c, empty, '/');
    assert(c + empty =~= c);
    assert(c.subrange(c.len() - 10, c.len() as int) =~= "/data.json"@);
    assert(c.subrange(0, c.len() - 10) =~= base);
}

/// Until its catalog answers, a portal goes by its address without the scheme.
pub proof fn a_portal_goes_by_its_host(host: Seq<char>)
    requires
        !"https://"@.is_prefix_of(host),
        !"http://"@.is_prefix_of(host),
    ensures
        provisional_name(host) == host,
        provisional_name("https://"@ + host) == host,
        provisional_name("http://"@ + host) == host,
{
    reveal_strlit("https://");
    reveal_strlit("http://");
    reveal_with_fuel(without_prefixes, 2);
    let a = "https://"@ + host;
    assert(a.subrange(0, 8) =~= "https://"@);
    assert(a.subrange(8, a.len() as int) =~= host);
    let b = "http://"@ + host;
    assert(b.subrange(0, 7) =~= "http://"@);
    assert(b.subrange(7, b.len() as int) =~= host);
    assert(!"https://"@.is_prefix_of(b)) by {
        assert("https://"@[4] == 's');
        assert(b[4] == ':');
        if "https://"@.is_prefix_of(b) {
            assert(b.subrange(0, 8)[4] == b[4]);
        }
    }
}

/// Forgetting a catalog takes that one off its list and leaves the others; the
/// selection stays with the portal it was on, and ends with it.
pub proof fn forgetting_takes_one_away(b: CatalogBrowser, saved: bool, i: usize, r: CatalogBrowser)
    requires
        forgotten(b, saved, i, r),
        i < (if saved {
            b.saved@.len()
        } else {
            b.session@.len()
        }),
        b.sel matches Some(s) ==> s.index < (if s.saved {
            b.saved@.len()
        } else {
            b.session@.len()
        }),
    ensures
        saved ==> r.saved@ == b.saved@.subrange(0, i as int) + b.saved@.subrange(
            i + 1,
            b.saved@.len() as int,
        ) && r.session@ == b.session@,
        !saved ==> r.session@ == b.session@.subrange(0, i as int) + b.session@.subrange(
            i + 1,
            b.session@.len() as int,
        ) && r.saved@ == b.saved@,
        b.sel == Some(Selected { saved, index: i }) ==> r.sel is None && r.dcat is None,
        b.sel is Some && b.sel != Some(Selected { saved, index: i }) ==> selected_of(r)
            == selected_of(b) && selected_of(r) is Some && r.sel->0.saved == b.sel->0.saved && r.dcat
            == b.dcat,
        b.sel is None ==> r.sel is None,
{
    if saved {
        assert(r.saved@ =~= b.saved@.subrange(0, i as int) + b.saved@.subrange(
            i + 1,
            b.saved@.len() as int,
        ));
    } else {
        assert(r.session@ =~= b.session@.subrange(0, i as int) + b.session@.subrange(
            i + 1,
            b.session@.len() as int,
        ));
    }
}

/// A selection points at the entry of the list it names.
pub proof fn a_selection_points_at_its_entry(b: CatalogBrowser)
    ensures
        selected_of(b) is Some <==> b.sel is Some && b.sel->0.index < (if b.sel->0.saved {
            b.saved@.len()
        } else {
            b.session@.len()
        }),
        selected_of(b) is Some && b.sel->0.saved ==> selected_of(b)->0
            == b.saved@[b.sel->0.index as int],
        selected_of(b) is Some && !b.sel->0.saved ==> selected_of(b)->0
            == b.session@[b.sel->0.index as int],
{
}

/// Keeping a session's catalog moves it to the saved list, with the time it was
/// kept, and loses none.
pub proof fn a_kept_catalog_moves_over(b: CatalogBrowser, i: usize, stamp: Option<u64>, r: CatalogBrowser)
    requires
        i < b.session@.len(),
        kept(b, i, stamp, r),
    ensures
        r.session@ == b.session@.subrange(0, i as int) + b.session@.subrange(
            i + 1,
            b.session@.len() as int,
        ),
        r.saved@.to_multiset() == b.saved@.to_multiset().insert(
            Catalog { added_on: stamp, ..b.session@[i as int] },
        ),
        alphabetical(r.saved@),
{
    broadcast use vstd::seq_lib::group_to_multiset_ensures;

    let c = Catalog { added_on: stamp, ..b.session@[i as int] };
    arranged_is_alphabetical(b.saved@.push(c));
    assert(r.session@ =~= b.session@.subrange(0, i as int) + b.session@.subrange(
        i + 1,
        b.session@.len() as int,
    ));
    assert(b.saved@.push(c).to_multiset() =~= b.saved@.to_multiset().insert(c));
}

/// Catalogs are filed under their names whatever the case: names that differ in
/// case alone are filed alike, and the names decide, not the addresses.
pub proof fn names_decide_where_catalogs_are_filed(a: Catalog, b: Catalog)
    requires
        a.name@ == b.name@ || lowercase(a.name@) == lowercase(b.name@),
    ensures
        filed(a) == filed(b),
        filed(a) == lowercase(a.name@),
{
}

/// Formats whose readers take a file are fetched first; the others are read
/// where they are.
pub proof fn files_are_fetched_first(f: DcatFormat)
    ensures
        downloads(f) <==> !(f is GeoParquet) && !(f is Csv),
{
}

/// A count goes with its word, in the plural but for one.
pub proof fn counts_go_with_their_words(n: nat, verb: Seq<char>, word: Seq<char>)
    ensures
        n == 1 ==> counted_word(n, verb, word) == verb + "1 "@ + word,
        n != 1 ==> counted_word(n, verb, word) == verb + decimal(n) + " "@ + word + "s"@,
{
    reveal_strlit("1 ");
    reveal_strlit(" ");
    reveal_with_fuel(decimal, 2);
    if n == 1 {
        assert(counted_word(n, verb, word) =~= verb + "1 "@ + word);
    }
}

/// What a dataset says about itself is shown: its publisher, licence and
/// keywords in full.
#[verifier::spinoff_prover]
pub proof fn a_dataset_speaks_for_itself(d: DcatDataset)
    ensures
        d.publisher matches Some(p) ==> occurs("Publisher: "@ + p@ + "\n"@, hover_lines(d)),
        d.license matches Some(l) ==> occurs("License: "@ + l@ + "\n"@, hover_lines(d)),
        d.keywords@.len() > 0 ==> occurs(
            "Keywords: "@ + joined(texts(d.keywords@), ", "@) + "\n"@,
            hover_lines(d),
        ),
        d.extent matches Some(b) ==> occurs(
            "Extent: "@ + b.west@ + ", "@ + b.south@ + " → "@ + b.east@ + ", "@ + b.north@ + "\n"@,
            hover_lines(d),
        ),
{
    let a = if d.description@.len() == 0 {
        Seq::<char>::empty()
    } else if d.description@.len() <= DESCRIPTION_CHARS {
        d.description@ + "\n\n"@
    } else {
        d.description@.subrange(0, DESCRIPTION_CHARS as int) + "…"@ + "\n\n"@
    };
    let b = match d.publisher {
        Some(p) => "Publisher: "@ + p@ + "\n"@,
        None => Seq::empty(),
    };
    let c = match d.license {
        Some(l) => "License: "@ + l@ + "\n"@,
        None => Seq::empty(),
    };
    let e = match d.extent {
        Some(b) => "Extent: "@ + b.west@ + ", "@ + b.south@ + " → "@ + b.east@ + ", "@ + b.north@
            + "\n"@,
        None => Seq::empty(),
    };
    let k = if d.keywords@.len() > 0 {
        "Keywords: "@ + joined(texts(d.keywords@), ", "@) + "\n"@
    } else {
        Seq::empty()
    };
    assert(hover_lines(d) == a + b + c + e + k);
    parts_occur(a, b, c, e, k);
}

proof fn parts_occur(a: Seq<char>, b: Seq<char>, c: Seq<char>, d: Seq<char>, e: Seq<char>)
    ensures
        occurs(b, a + b + c + d + e),
        occurs(c, a + b + c + d + e),
        occurs(d, a + b + c + d + e),
        occurs(e, a + b + c + d + e),
{
    let h = a + b + c + d + e;
    let n = a.len() as int;
    assert(h.subrange(n, n + b.len()) =~= b);
    assert(occurs_at(b, h, n));
    let n = n + b.len();
    assert(h.subrange(n, n + c.len()) =~= c);
    assert(occurs_at(c, h, n));
    let n = n + c.len();
    assert(h.subrange(n, n + d.len()) =~= d);
    assert(occurs_at(d, h, n));
    let n = n + d.len();
    assert(h.subrange(n, n + e.len()) =~= e);
    assert(occurs_at(e, h, n));
}

/// A description is shown first: all of it, or as much as there is room for.
pub proof fn a_description_comes_first(d: DcatDataset, k: int)
    requires
        0 <= k < d.description@.len(),
    ensures
        d.description@.len() <= 400 || k < 400 ==> k < hover_lines(d).len()
            && hover_lines(d)[k] == d.description@[k],
        d.description@.len() > 400 ==> hover_lines(d)[400] == '…',
{
    reveal_strlit("…");
}

/// A dataset goes on the map if one of its files does: any but a plain table.
pub proof fn a_layer_file_makes_a_dataset_mappable(d: DcatDataset, k: int)
    ensures
        0 <= k < d.distributions@.len() && (d.distributions@[k].format is GeoParquet
            || d.distributions@[k].format is GeoPackage || d.distributions@[k].format is GeoJson)
            ==> mappable(d),
        (forall|j: int| 0 <= j < d.distributions@.len() ==> (#[trigger] d.distributions@[j]).format is Csv)
            ==> !mappable(d),
{
}

} // verus!
