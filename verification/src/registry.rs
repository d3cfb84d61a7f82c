//! The registry: a durable mapping from item name to the set of users who
//! want it, together with the read-only catalog of items per category.

use vstd::prelude::*;
use crate::category::{CosmeticCategory, NUM_CATEGORIES};
use crate::strcmp::{
    contains_entry, dedup_entries, remove_entry, sort_entries, sorted_entries, str_eq,
    lemma_without_entry_set,
};
use crate::text::{distinct_entries, entry_views, load_entries, record_entries};

verus! {

/// One item's want-set: the users who declared they want the item.
pub struct Record {
    pub item: String,
    pub users: Vec<String>,
}

impl Record {
    pub open spec fn item_text(self) -> Seq<char> {
        self.item@
    }

    pub open spec fn user_set(self) -> Set<Seq<char>> {
        entry_views(self.users@).to_set()
    }
}

/// The want-set recorded for an item: that of its first record, or empty
/// where no record exists.
pub open spec fn users_in(recs: Seq<Record>, item: Seq<char>) -> Set<Seq<char>>
    decreases recs.len(),
{
    if recs.len() == 0 {
        Set::empty()
    } else if recs.first().item_text() == item {
        recs.first().user_set()
    } else {
        users_in(recs.drop_first(), item)
    }
}

/// Whether some record carries the item.
pub open spec fn has_rec(recs: Seq<Record>, item: Seq<char>) -> bool
    decreases recs.len(),
{
    if recs.len() == 0 {
        false
    } else if recs.first().item_text() == item {
        true
    } else {
        has_rec(recs.drop_first(), item)
    }
}

pub open spec fn distinct_keys(recs: Seq<Record>) -> bool {
    forall|i: int, j: int| 0 <= i < j < recs.len() ==> recs[i].item_text() != recs[j].item_text()
}

pub open spec fn users_wf(recs: Seq<Record>) -> bool {
    forall|k: int| 0 <= k < recs.len() ==> distinct_entries(entry_views(#[trigger] recs[k].users@))
}

proof fn lemma_skip_keys(recs: Seq<Record>, item: Seq<char>, i: int)
    requires
        0 <= i <= recs.len(),
        forall|j: int| 0 <= j < i ==> recs[j].item_text() != item,
    ensures
        users_in(recs, item) == users_in(recs.skip(i), item),
        has_rec(recs, item) == has_rec(recs.skip(i), item),
    decreases i,
{
    if i > 0 {
        assert(recs.first().item_text() != item);
        lemma_skip_keys(recs.drop_first(), item, i - 1);
        assert(recs.drop_first().skip(i - 1) =~= recs.skip(i));
    } else {
        assert(recs.skip(0) =~= recs);
    }
}

proof fn lemma_has_rec_index(recs: Seq<Record>, item: Seq<char>)
    ensures
        has_rec(recs, item) <==> exists|j: int| 0 <= j < recs.len() && (#[trigger] recs[j]).item_text()
            == item,
    decreases recs.len(),
{
    if recs.len() > 0 {
        lemma_has_rec_index(recs.drop_first(), item);
        if recs.first().item_text() == item {
            assert(recs[0].item_text() == item);
        } else if has_rec(recs, item) {
            let j = choose|j: int|
                0 <= j < recs.drop_first().len() && (#[trigger] recs.drop_first()[j]).item_text()
                    == item;
            assert(recs[j + 1].item_text() == item);
        } else {
            assert forall|j: int| 0 <= j < recs.len() implies (#[trigger] recs[j]).item_text()
                != item by {
                if j > 0 {
                    assert(recs.drop_first()[j - 1] == recs[j]);
                }
            }
        }
    }
}

proof fn lemma_users_in_absent(recs: Seq<Record>, item: Seq<char>)
    requires
        !has_rec(recs, item),
    ensures
        users_in(recs, item) == Set::<Seq<char>>::empty(),
    decreases recs.len(),
{
    if recs.len() > 0 {
        lemma_users_in_absent(recs.drop_first(), item);
    }
}

proof fn lemma_users_in_update(recs: Seq<Record>, i: int, r2: Record, item: Seq<char>)
    requires
        0 <= i < recs.len(),
        r2.item_text() == recs[i].item_text(),
        forall|j: int| 0 <= j < recs.len() && j != i ==> (#[trigger] recs[j]).item_text()
            != recs[i].item_text(),
    ensures
        users_in(recs.update(i, r2), item) == if item == recs[i].item_text() {
            r2.user_set()
        } else {
            users_in(recs, item)
        },
        has_rec(recs.update(i, r2), item) == has_rec(recs, item),
    decreases recs.len(),
{
    let up = recs.update(i, r2);
    if i == 0 {
        assert(up.first() == r2);
        assert(up.drop_first() =~= recs.drop_first());
    } else {
        assert(up.first() == recs.first());
        assert(up.drop_first() =~= recs.drop_first().update(i - 1, r2));
        lemma_users_in_update(recs.drop_first(), i - 1, r2, item);
        assert(recs.drop_first()[i - 1] == recs[i]);
        assert(recs.first().item_text() != recs[i].item_text());
    }
}

proof fn lemma_users_in_push(recs: Seq<Record>, r2: Record, item: Seq<char>)
    ensures
        users_in(recs.push(r2), item) == if has_rec(recs, item) {
            users_in(recs, item)
        } else if item == r2.item_text() {
            r2.user_set()
        } else {
            Set::<Seq<char>>::empty()
        },
        has_rec(recs.push(r2), item) == (has_rec(recs, item) || item == r2.item_text()),
    decreases recs.len(),
{
    let p = recs.push(r2);
    if recs.len() == 0 {
        assert(p.len() == 1);
        assert(p.first() == r2);
        assert(p.drop_first() =~= Seq::<Record>::empty());
        assert(!has_rec(recs, item));
        if item == r2.item_text() {
            assert(users_in(p, item) == r2.user_set());
            assert(has_rec(p, item));
        } else {
            assert(users_in(p, item) == users_in(Seq::<Record>::empty(), item));
            assert(users_in(p, item) == Set::<Seq<char>>::empty());
            assert(!has_rec(Seq::<Record>::empty(), item));
            assert(!has_rec(p, item));
        }
    } else {
        assert(p.first() == recs.first());
        assert(p.drop_first() =~= recs.drop_first().push(r2));
        lemma_users_in_push(recs.drop_first(), r2, item);
        if recs.first().item_text() == item {
            assert(users_in(p, item) == recs.first().user_set());
            assert(users_in(recs, item) == recs.first().user_set());
            assert(has_rec(recs, item) && has_rec(p, item));
        } else {
            assert(users_in(p, item) == users_in(recs.drop_first().push(r2), item));
            assert(users_in(recs, item) == users_in(recs.drop_first(), item));
            assert(has_rec(recs, item) == has_rec(recs.drop_first(), item));
            assert(has_rec(p, item) == has_rec(recs.drop_first().push(r2), item));
        }
    }
}

proof fn lemma_singleton_user_set(users: Seq<String>, u: Seq<char>)
    requires
        users.len() == 1,
        users[0]@ == u,
    ensures
        entry_views(users).to_set() == Set::<Seq<char>>::empty().insert(u),
{
    assert(entry_views(users).len() == 1);
    assert(entry_views(users)[0] == u);
    assert forall|x: Seq<char>| entry_views(users).to_set().contains(x) implies x == u by {
        let i = choose|i: int| 0 <= i < entry_views(users).len() && entry_views(users)[i] == x;
    }
    assert(entry_views(users).contains(u));
    assert(entry_views(users).to_set() =~= Set::<Seq<char>>::empty().insert(u));
}

proof fn lemma_forget_map(orig: Seq<Record>, out: Seq<Record>, u: Seq<char>, item: Seq<char>)
    requires
        out.len() == orig.len(),
        forall|k: int|
            0 <= k < orig.len() ==> (#[trigger] out[k]).item_text() == orig[k].item_text()
                && out[k].user_set() == orig[k].user_set().remove(u),
    ensures
        users_in(out, item) == users_in(orig, item).remove(u),
    decreases orig.len(),
{
    if orig.len() == 0 {
        assert(users_in(out, item) =~= users_in(orig, item).remove(u));
    } else {
        assert(out[0].item_text() == orig[0].item_text());
        if orig.first().item_text() == item {
            assert(out.first().user_set() == orig.first().user_set().remove(u));
        } else {
            assert forall|k: int|
                0 <= k < orig.drop_first().len() implies (#[trigger] out.drop_first()[k]).item_text()
                == orig.drop_first()[k].item_text() && out.drop_first()[k].user_set()
                == orig.drop_first()[k].user_set().remove(u) by {
                assert(out.drop_first()[k] == out[k + 1]);
                assert(orig.drop_first()[k] == orig[k + 1]);
            }
            lemma_forget_map(orig.drop_first(), out.drop_first(), u, item);
        }
    }
}

/// The registry and catalog: per category the sorted item list, the full item
/// list, and one record per item that anyone ever wanted.
pub struct Database {
    pub hats: Vec<String>,
    pub tops: Vec<String>,
    pub bottoms: Vec<String>,
    pub accessories: Vec<String>,
    pub vests: Vec<String>,
    pub belts: Vec<String>,
    pub all: Vec<String>,
    pub records: Vec<Record>,
}

impl Database {
    /// Internal validity: one record per item, and no user listed twice in
    /// one record.
    pub open spec fn wf(self) -> bool {
        &&& distinct_keys(self.records@)
        &&& users_wf(self.records@)
    }

    /// The set of users who want the item; empty for unknown items.
    pub open spec fn want_set(self, item: Seq<char>) -> Set<Seq<char>> {
        users_in(self.records@, item)
    }

    /// Whether the user wants the item.
    pub open spec fn spec_needs(self, item: Seq<char>, user: Seq<char>) -> bool {
        self.want_set(item).contains(user)
    }

    /// The catalog's items for one category.
    pub open spec fn catalog_list(self, category: CosmeticCategory) -> Seq<String> {
        match category {
            CosmeticCategory::Hat => self.hats@,
            CosmeticCategory::Top => self.tops@,
            CosmeticCategory::Bottom => self.bottoms@,
            CosmeticCategory::Accessory => self.accessories@,
            CosmeticCategory::Vest => self.vests@,
            CosmeticCategory::Belt => self.belts@,
        }
    }

    /// Every catalog item, in category order, unsorted within a category.
    pub open spec fn all_list(self) -> Seq<String> {
        self.all@
    }

    /// The catalog of the two registries is the same.
    pub open spec fn same_catalog(self, other: Database) -> bool {
        &&& self.hats@ == other.hats@
        &&& self.tops@ == other.tops@
        &&& self.bottoms@ == other.bottoms@
        &&& self.accessories@ == other.accessories@
        &&& self.vests@ == other.vests@
        &&& self.belts@ == other.belts@
        &&& self.all@ == other.all@
    }

    /// Builds the catalog from the six categories' raw stored texts, given in
    /// the fixed category order. Each category's list is sanitized, split
    /// into lines and sorted; the registry starts with no want-sets.
    pub fn new(sources: Vec<String>) -> (db: Database)
        requires
            sources@.len() == NUM_CATEGORIES as int,
        ensures
            db.wf(),
            forall|item: Seq<char>| db.want_set(item) == Set::<Seq<char>>::empty(),
            forall|c: CosmeticCategory|
                sorted_entries(entry_views(#[trigger] db.catalog_list(c))) && entry_views(
                    db.catalog_list(c)).to_multiset() == record_entries(
                    sources@[c.position()]@).to_multiset(),
            entry_views(db.all_list()) == record_entries(sources@[0]@) + record_entries(
                sources@[1]@) + record_entries(sources@[2]@) + record_entries(sources@[3]@)
                + record_entries(sources@[4]@) + record_entries(sources@[5]@),
    {
        let e0 = load_entries(sources[0].clone());
        let e1 = load_entries(sources[1].clone());
        let e2 = load_entries(sources[2].clone());
        let e3 = load_entries(sources[3].clone());
        let e4 = load_entries(sources[4].clone());
        let e5 = load_entries(sources[5].clone());
        let mut all: Vec<String> = Vec::new();
        append_clones(&mut all, &e0);
        append_clones(&mut all, &e1);
        append_clones(&mut all, &e2);
        append_clones(&mut all, &e3);
        append_clones(&mut all, &e4);
        append_clones(&mut all, &e5);
        proof {
            assert(entry_views(e0@ + e1@ + e2@ + e3@ + e4@ + e5@) =~= entry_views(e0@)
                + entry_views(e1@) + entry_views(e2@) + entry_views(e3@) + entry_views(e4@)
                + entry_views(e5@));
        }
        let db = Database {
            hats: sort_entries(e0),
            tops: sort_entries(e1),
            bottoms: sort_entries(e2),
            accessories: sort_entries(e3),
            vests: sort_entries(e4),
            belts: sort_entries(e5),
            all,
            records: Vec::new(),
        };
        proof {
            assert(forall|item: Seq<char>| db.want_set(item) =~= Set::<Seq<char>>::empty());
        }
        db
    }

    /// The catalog's items for the category, in ascending order.
    pub fn cosmetics_in_category(&self, category: CosmeticCategory) -> (r: &Vec<String>)
        ensures
            r@ == self.catalog_list(category),
    {
        match category {
            CosmeticCategory::Hat => &self.hats,
            CosmeticCategory::Top => &self.tops,
            CosmeticCategory::Bottom => &self.bottoms,
            CosmeticCategory::Accessory => &self.accessories,
            CosmeticCategory::Vest => &self.vests,
            CosmeticCategory::Belt => &self.belts,
        }
    }

    fn find_record(&self, cosmetic: &str) -> (r: Option<usize>)
        ensures
            match r {
                Some(i) => 0 <= i < self.records@.len() && self.records@[i as int].item_text()
                    == cosmetic@ && has_rec(self.records@, cosmetic@) && self.want_set(cosmetic@)
                    == self.records@[i as int].user_set(),
                None => !has_rec(self.records@, cosmetic@) && self.want_set(cosmetic@) == Set::<
                    Seq<char>,
                >::empty(),
            },
    {
        let mut i: usize = 0;
        while i < self.records.len()
            invariant
                i <= self.records@.len(),
                forall|j: int| 0 <= j < i ==> (#[trigger] self.records@[j]).item_text() != cosmetic@,
            decreases self.records@.len() - i,
        {
            if str_eq(self.records[i].item.as_str(), cosmetic) {
                proof {
                    lemma_skip_keys(self.records@, cosmetic@, i as int);
                    assert(self.records@.skip(i as int).first() == self.records@[i as int]);
                }
                return Some(i);
            }
            i += 1;
        }
        proof {
            lemma_skip_keys(self.records@, cosmetic@, self.records@.len() as int);
            assert(self.records@.skip(self.records@.len() as int) =~= Seq::<Record>::empty());
        }
        None
    }

    /// Whether the user currently wants the cosmetic.
    pub fn needs(&self, user_id: &str, cosmetic: &str) -> (r: bool)
        ensures
            r == self.spec_needs(cosmetic@, user_id@),
    {
        match self.find_record(cosmetic) {
            Some(i) => contains_entry(&self.records[i].users, user_id),
            None => false,
        }
    }

    /// The users who want the cosmetic, each once, in recorded order.
    pub fn who_needs(&self, cosmetic: &str) -> (r: Vec<String>)
        requires
            self.wf(),
        ensures
            entry_views(r@).to_set() == self.want_set(cosmetic@),
            distinct_entries(entry_views(r@)),
    {
        match self.find_record(cosmetic) {
            Some(i) => clone_entries(&self.records[i].users),
            None => {
                let r: Vec<String> = Vec::new();
                proof {
                    assert(entry_views(r@).to_set() =~= Set::<Seq<char>>::empty());
                }
                r
            },
        }
    }

    /// Records that the user wants the cosmetic; recording it again changes
    /// nothing.
    pub fn add(&mut self, cosmetic: &str, user_id: &str)
        requires
            old(self).wf(),
        ensures
            final(self).wf(),
            final(self).want_set(cosmetic@) == old(self).want_set(cosmetic@).insert(user_id@),
            forall|other: Seq<char>|
                other != cosmetic@ ==> final(self).want_set(other) == old(self).want_set(other),
            final(self).same_catalog(*old(self)),
    {
        match self.find_record(cosmetic) {
            Some(i) => {
                if contains_entry(&self.records[i].users, user_id) {
                    proof {
                        assert(old(self).want_set(cosmetic@).insert(user_id@) =~= old(
                            self).want_set(cosmetic@));
                    }
                } else {
                    let ghost orig = self.records@;
                    let mut rec = self.records.remove(i);
                    rec.users.push(user_id.to_owned());
                    proof {
                        assert(entry_views(rec.users@) =~= entry_views(orig[i as int].users@).push(
                            user_id@));
                        entry_views(orig[i as int].users@).lemma_push_to_set_commute(user_id@);
                    }
                    self.records.insert(i, rec);
                    proof {
                        assert(self.records@ =~= orig.update(i as int, self.records@[i as int]));
                        let r2 = self.records@[i as int];
                        assert forall|item: Seq<char>| #[trigger] users_in(self.records@, item)
                            == if item == orig[i as int].item_text() {
                            r2.user_set()
                        } else {
                            users_in(orig, item)
                        } by {
                            lemma_users_in_update(orig, i as int, r2, item);
                        }
                        assert(final(self).want_set(cosmetic@) =~= old(self).want_set(
                            cosmetic@).insert(user_id@));
                    }
                }
            },
            None => {
                let mut users: Vec<String> = Vec::new();
                users.push(user_id.to_owned());
                let rec = Record { item: cosmetic.to_owned(), users };
                let ghost orig = self.records@;
                let ghost r2 = rec;
                self.records.push(rec);
                proof {
                    lemma_has_rec_index(orig, cosmetic@);
                    lemma_singleton_user_set(r2.users@, user_id@);
                    assert(r2.user_set() == Set::<Seq<char>>::empty().insert(user_id@));
                    assert forall|item: Seq<char>| #[trigger] users_in(self.records@, item)
                        == if has_rec(orig, item) {
                        users_in(orig, item)
                    } else if item == r2.item_text() {
                        r2.user_set()
                    } else {
                        Set::<Seq<char>>::empty()
                    } by {
                        lemma_users_in_push(orig, r2, item);
                    }
                    assert forall|other: Seq<char>| other != cosmetic@ implies final(
                        self).want_set(other) == old(self).want_set(other) by {
                        if !has_rec(orig, other) {
                            lemma_users_in_absent(orig, other);
                        }
                    }
                    assert forall|i2: int, j2: int|
                        0 <= i2 < j2 < self.records@.len() implies self.records@[i2].item_text()
                        != self.records@[j2].item_text() by {
                        if j2 == self.records@.len() - 1 {
                            assert(orig[i2].item_text() != cosmetic@);
                        }
                    }
                }
            },
        }
    }

    /// Removes the user from the cosmetic's want-set; removing an absent pair
    /// changes nothing.
    pub fn remove(&mut self, cosmetic: &str, user_id: &str)
        requires
            old(self).wf(),
        ensures
            final(self).wf(),
            final(self).want_set(cosmetic@) == old(self).want_set(cosmetic@).remove(user_id@),
            forall|other: Seq<char>|
                other != cosmetic@ ==> final(self).want_set(other) == old(self).want_set(other),
            final(self).same_catalog(*old(self)),
    {
        match self.find_record(cosmetic) {
            Some(i) => {
                let ghost orig = self.records@;
                let rec = self.records.remove(i);
                let users2 = remove_entry(rec.users, user_id);
                proof {
                    lemma_without_entry_set(entry_views(orig[i as int].users@), user_id@);
                }
                let rec2 = Record { item: rec.item, users: users2 };
                self.records.insert(i, rec2);
                proof {
                    assert(self.records@ =~= orig.update(i as int, self.records@[i as int]));
                    let r2 = self.records@[i as int];
                    assert forall|item: Seq<char>| #[trigger] users_in(self.records@, item)
                        == if item == orig[i as int].item_text() {
                        r2.user_set()
                    } else {
                        users_in(orig, item)
                    } by {
                        lemma_users_in_update(orig, i as int, r2, item);
                    }
                }
            },
            None => {
                proof {
                    assert(old(self).want_set(cosmetic@).remove(user_id@) =~= Set::<
                        Seq<char>,
                    >::empty());
                }
            },
        }
    }

    /// Removes the user from every item's want-set.
    pub fn forget(&mut self, user_id: &str)
        requires
            old(self).wf(),
        ensures
            final(self).wf(),
            forall|item: Seq<char>| #[trigger] final(self).want_set(item) == old(self).want_set(
                item).remove(user_id@),
            final(self).same_catalog(*old(self)),
    {
        let ghost orig = self.records@;
        let mut out: Vec<Record> = Vec::new();
        while self.records.len() > 0
            invariant
                out@.len() + self.records@.len() == orig.len(),
                self.records@ == orig.skip(out@.len() as int),
                distinct_keys(orig),
                users_wf(orig),
                forall|k: int|
                    0 <= k < out@.len() ==> (#[trigger] out@[k]).item_text() == orig[k].item_text()
                        && out@[k].user_set() == orig[k].user_set().remove(user_id@)
                        && distinct_entries(entry_views(out@[k].users@)),
                self.hats@ == old(self).hats@,
                self.tops@ == old(self).tops@,
                self.bottoms@ == old(self).bottoms@,
                self.accessories@ == old(self).accessories@,
                self.vests@ == old(self).vests@,
                self.belts@ == old(self).belts@,
                self.all@ == old(self).all@,
            decreases self.records@.len(),
        {
            let ghost n = out@.len() as int;
            proof {
                assert(orig.skip(n)[0] == orig[n]);
            }
            let rec = self.records.remove(0);
            let users2 = remove_entry(rec.users, user_id);
            proof {
                lemma_without_entry_set(entry_views(orig[n].users@), user_id@);
                assert(orig.skip(n).remove(0) =~= orig.skip(n + 1));
            }
            out.push(Record { item: rec.item, users: users2 });
        }
        self.records = out;
        proof {
            assert forall|item: Seq<char>| #[trigger] final(self).want_set(item) == old(
                self).want_set(item).remove(user_id@) by {
                lemma_forget_map(orig, self.records@, user_id@, item);
            }
        }
    }

    /// The catalog items the user wants, in catalog order.
    pub fn needed_by(&self, user_id: &str) -> (r: Vec<String>)
        ensures
            entry_views(r@) == self.needed_from(entry_views(self.all_list()), user_id@),
    {
        let mut out: Vec<String> = Vec::new();
        proof {
            assert(entry_views(out@) =~= Seq::<Seq<char>>::empty());
            assert(entry_views(self.all@.subrange(0, 0)) =~= Seq::<Seq<char>>::empty());
        }
        let mut i: usize = 0;
        while i < self.all.len()
            invariant
                i <= self.all@.len(),
                entry_views(out@) == self.needed_from(
                    entry_views(self.all@.subrange(0, i as int)), user_id@),
            decreases self.all@.len() - i,
        {
            proof {
                let pre = entry_views(self.all@.subrange(0, i as int));
                let pre2 = entry_views(self.all@.subrange(0, i + 1));
                assert(pre2 =~= pre.push(self.all@[i as int]@));
                assert(pre2.drop_last() =~= pre);
                assert(entry_views(out@.push(self.all@[i as int])) =~= entry_views(out@).push(
                    self.all@[i as int]@));
            }
            if self.needs(user_id, self.all[i].as_str()) {
                let c = self.all[i].clone();
                out.push(c);
            }
            i += 1;
        }
        proof {
            assert(self.all@.subrange(0, self.all@.len() as int) =~= self.all@);
        }
        out
    }

    /// The catalog items, among the given ones, that the user wants.
    pub open spec fn needed_from(self, items: Seq<Seq<char>>, user: Seq<char>) -> Seq<Seq<char>>
        decreases items.len(),
    {
        if items.len() == 0 {
            Seq::empty()
        } else {
            let r = self.needed_from(items.drop_last(), user);
            if self.spec_needs(items.last(), user) {
                r.push(items.last())
            } else {
                r
            }
        }
    }

    /// The decision core of declaring a need: reports whether the user
    /// already needed the cosmetic, then records the need either way.
    pub fn need_apply(&mut self, cosmetic: &str, user_id: &str) -> (already: bool)
        requires
            old(self).wf(),
        ensures
            final(self).wf(),
            already == old(self).spec_needs(cosmetic@, user_id@),
            final(self).want_set(cosmetic@) == old(self).want_set(cosmetic@).insert(user_id@),
            forall|other: Seq<char>|
                other != cosmetic@ ==> final(self).want_set(other) == old(self).want_set(other),
            final(self).same_catalog(*old(self)),
    {
        let already = self.needs(user_id, cosmetic);
        self.add(cosmetic, user_id);
        already
    }

    /// The decision core of dropping a need: removes the pair only when it
    /// is present, and reports whether it was.
    pub fn unneed_apply(&mut self, cosmetic: &str, user_id: &str) -> (was_needed: bool)
        requires
            old(self).wf(),
        ensures
            final(self).wf(),
            was_needed == old(self).spec_needs(cosmetic@, user_id@),
            final(self).want_set(cosmetic@) == old(self).want_set(cosmetic@).remove(user_id@),
            forall|other: Seq<char>|
                other != cosmetic@ ==> final(self).want_set(other) == old(self).want_set(other),
            final(self).same_catalog(*old(self)),
    {
        if self.needs(user_id, cosmetic) {
            self.remove(cosmetic, user_id);
            true
        } else {
            proof {
                assert(old(self).want_set(cosmetic@).remove(user_id@) =~= old(self).want_set(
                    cosmetic@));
            }
            false
        }
    }

    /// Replaces the cosmetic's want-set with the one a stored record holds:
    /// the record is sanitized, split into lines, and duplicates are dropped.
    pub fn set_record(&mut self, cosmetic: &str, content: String)
        requires
            old(self).wf(),
        ensures
            final(self).wf(),
            final(self).want_set(cosmetic@) == record_entries(content@).to_set(),
            forall|other: Seq<char>|
                other != cosmetic@ ==> final(self).want_set(other) == old(self).want_set(other),
            final(self).same_catalog(*old(self)),
    {
        let loaded = load_entries(content);
        let users = dedup_entries(loaded);
        match self.find_record(cosmetic) {
            Some(i) => {
                let ghost orig = self.records@;
                let rec = self.records.remove(i);
                let rec2 = Record { item: rec.item, users };
                self.records.insert(i, rec2);
                proof {
                    assert(self.records@ =~= orig.update(i as int, self.records@[i as int]));
                    let r2 = self.records@[i as int];
                    assert forall|item: Seq<char>| #[trigger] users_in(self.records@, item)
                        == if item == orig[i as int].item_text() {
                        r2.user_set()
                    } else {
                        users_in(orig, item)
                    } by {
                        lemma_users_in_update(orig, i as int, r2, item);
                    }
                }
            },
            None => {
                let rec = Record { item: cosmetic.to_owned(), users };
                let ghost orig = self.records@;
                let ghost r2 = rec;
                self.records.push(rec);
                proof {
                    lemma_has_rec_index(orig, cosmetic@);
                    assert forall|item: Seq<char>| #[trigger] users_in(self.records@, item)
                        == if has_rec(orig, item) {
                        users_in(orig, item)
                    } else if item == r2.item_text() {
                        r2.user_set()
                    } else {
                        Set::<Seq<char>>::empty()
                    } by {
                        lemma_users_in_push(orig, r2, item);
                    }
                    assert forall|other: Seq<char>| other != cosmetic@ implies final(
                        self).want_set(other) == old(self).want_set(other) by {
                        if !has_rec(orig, other) {
                            lemma_users_in_absent(orig, other);
                        }
                    }
                    assert forall|i2: int, j2: int|
                        0 <= i2 < j2 < self.records@.len() implies self.records@[i2].item_text()
                        != self.records@[j2].item_text() by {
                        if j2 == self.records@.len() - 1 {
                            assert(orig[i2].item_text() != cosmetic@);
                        }
                    }
                }
            },
        }
    }
}

/// An item whose want-set is empty — as every item's is in a fresh registry —
/// is needed by nobody.
pub proof fn lemma_empty_want_set_needs_nobody(db: Database, item: Seq<char>)
    requires
        db.want_set(item) == Set::<Seq<char>>::empty(),
    ensures
        forall|user: Seq<char>| !db.spec_needs(item, user),
{
}

/// After an add — whose effect is to insert the user into the item's
/// want-set — the user needs the item, and adding the same pair again leaves
/// the want-set unchanged.
pub proof fn lemma_add_then_needs(db0: Database, db1: Database, item: Seq<char>, user: Seq<char>)
    requires
        db1.want_set(item) == db0.want_set(item).insert(user),
    ensures
        db1.spec_needs(item, user),
        db1.want_set(item).insert(user) == db1.want_set(item),
{
    assert(db1.want_set(item).insert(user) =~= db1.want_set(item));
}

/// Removing a pair right after adding it leaves the user not needing the
/// item; if the pair was absent before the add, the prior want-set is
/// restored exactly.
pub proof fn lemma_add_then_remove(
    db0: Database,
    db1: Database,
    db2: Database,
    item: Seq<char>,
    user: Seq<char>,
)
    requires
        db1.want_set(item) == db0.want_set(item).insert(user),
        db2.want_set(item) == db1.want_set(item).remove(user),
    ensures
        !db2.spec_needs(item, user),
        !db0.spec_needs(item, user) ==> db2.want_set(item) == db0.want_set(item),
{
    if !db0.spec_needs(item, user) {
        assert(db2.want_set(item) =~= db0.want_set(item));
    }
}

/// Removing an absent pair is a no-op on the want-set.
pub proof fn lemma_remove_absent(db0: Database, db1: Database, item: Seq<char>, user: Seq<char>)
    requires
        db1.want_set(item) == db0.want_set(item).remove(user),
        !db0.spec_needs(item, user),
    ensures
        db1.want_set(item) == db0.want_set(item),
{
    assert(db1.want_set(item) =~= db0.want_set(item));
}

/// After a forget — whose effect is to remove the user from every want-set —
/// the user needs nothing, while every other user's membership in every item
/// is exactly as before.
pub proof fn lemma_forget_user(db0: Database, db1: Database, user: Seq<char>)
    requires
        forall|item: Seq<char>| #[trigger] db1.want_set(item) == db0.want_set(item).remove(user),
    ensures
        forall|item: Seq<char>| !db1.spec_needs(item, user),
        forall|item: Seq<char>, other: Seq<char>|
            other != user ==> db1.spec_needs(item, other) == db0.spec_needs(item, other),
{
}

fn append_clones(dst: &mut Vec<String>, src: &Vec<String>)
    ensures
        final(dst)@ == old(dst)@ + src@,
{
    proof {
        assert(old(dst)@ + src@.subrange(0, 0) =~= old(dst)@);
    }
    let mut i: usize = 0;
    while i < src.len()
        invariant
            i <= src@.len(),
            dst@ == old(dst)@ + src@.subrange(0, i as int),
        decreases src@.len() - i,
    {
        proof {
            assert(old(dst)@ + src@.subrange(0, i + 1) =~= (old(dst)@ + src@.subrange(
                0, i as int)).push(src@[i as int]));
        }
        let c = src[i].clone();
        dst.push(c);
        i += 1;
    }
    proof {
        assert(src@.subrange(0, src@.len() as int) =~= src@);
    }
}

fn clone_entries(v: &Vec<String>) -> (r: Vec<String>)
    ensures
        r@ == v@,
{
    let mut out: Vec<String> = Vec::new();
    let mut i: usize = 0;
    while i < v.len()
        invariant
            i <= v@.len(),
            out@ == v@.subrange(0, i as int),
        decreases v@.len() - i,
    {
        proof {
            assert(v@.subrange(0, i + 1) =~= v@.subrange(0, i as int).push(v@[i as int]));
        }
        let c = v[i].clone();
        out.push(c);
        i += 1;
    }
    proof {
        assert(v@.subrange(0, v@.len() as int) =~= v@);
    }
    out
}

} // verus!
