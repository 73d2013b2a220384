//! A verified in-memory implementation of the storage contract. It is the
//! computing half of a durable store: a file-backed store can hold one of
//! these and persist its whole contents after every mutation.

use vstd::prelude::*;
use vstd::string::StringExecFns;

use crate::models::{Category, CategoryView, PackageData, PackageDataView};
use crate::traits::{PazckagerStorage, StoreError, StoreResult};

verus! {

/// The category map held by a sequence of records: each record keyed by its
/// name, later records overriding earlier ones of the same name.
pub open spec fn cat_map_of(s: Seq<Category>) -> Map<Seq<char>, CategoryView>
    decreases s.len(),
{
    if s.len() == 0 {
        Map::empty()
    } else {
        cat_map_of(s.drop_last()).insert(s.last()@.category_name, s.last()@)
    }
}

/// The package map held by a sequence of records, keyed likewise.
pub open spec fn pkg_map_of(s: Seq<PackageData>) -> Map<Seq<char>, PackageDataView>
    decreases s.len(),
{
    if s.len() == 0 {
        Map::empty()
    } else {
        pkg_map_of(s.drop_last()).insert(s.last()@.package_name, s.last()@)
    }
}

/// No two records of the sequence share a category name.
pub open spec fn cat_names_unique(s: Seq<Category>) -> bool {
    forall|i: int, j: int|
        0 <= i < j < s.len() ==> (#[trigger] s[i])@.category_name != (#[trigger] s[j])@.category_name
}

/// No two records of the sequence share a package name.
pub open spec fn pkg_names_unique(s: Seq<PackageData>) -> bool {
    forall|i: int, j: int|
        0 <= i < j < s.len() ==> (#[trigger] s[i])@.package_name != (#[trigger] s[j])@.package_name
}

proof fn lemma_cat_map_contains(s: Seq<Category>, k: Seq<char>)
    ensures
        cat_map_of(s).contains_key(k) <==> exists|i: int|
            0 <= i < s.len() && (#[trigger] s[i])@.category_name == k,
    decreases s.len(),
{
    if s.len() > 0 {
        lemma_cat_map_contains(s.drop_last(), k);
        if s.last()@.category_name == k {
            assert(s[s.len() - 1]@.category_name == k);
        } else {
            if exists|i: int| 0 <= i < s.len() && (#[trigger] s[i])@.category_name == k {
                let i = choose|i: int| 0 <= i < s.len() && (#[trigger] s[i])@.category_name == k;
                assert(s.drop_last()[i]@.category_name == k);
            }
            if exists|i: int|
                0 <= i < s.drop_last().len() && (#[trigger] s.drop_last()[i])@.category_name == k {
                let i = choose|i: int|
                    0 <= i < s.drop_last().len() && (#[trigger] s.drop_last()[i])@.category_name
                        == k;
                assert(s[i]@.category_name == k);
            }
        }
    }
}

proof fn lemma_pkg_map_contains(s: Seq<PackageData>, k: Seq<char>)
    ensures
        pkg_map_of(s).contains_key(k) <==> exists|i: int|
            0 <= i < s.len() && (#[trigger] s[i])@.package_name == k,
    decreases s.len(),
{
    if s.len() > 0 {
        lemma_pkg_map_contains(s.drop_last(), k);
        if s.last()@.package_name == k {
            assert(s[s.len() - 1]@.package_name == k);
        } else {
            if exists|i: int| 0 <= i < s.len() && (#[trigger] s[i])@.package_name == k {
                let i = choose|i: int| 0 <= i < s.len() && (#[trigger] s[i])@.package_name == k;
                assert(s.drop_last()[i]@.package_name == k);
            }
            if exists|i: int|
                0 <= i < s.drop_last().len() && (#[trigger] s.drop_last()[i])@.package_name == k {
                let i = choose|i: int|
                    0 <= i < s.drop_last().len() && (#[trigger] s.drop_last()[i])@.package_name
                        == k;
                assert(s[i]@.package_name == k);
            }
        }
    }
}

proof fn lemma_cat_map_lookup(s: Seq<Category>, i: int)
    requires
        cat_names_unique(s),
        0 <= i < s.len(),
    ensures
        cat_map_of(s).contains_key(s[i]@.category_name),
        cat_map_of(s)[s[i]@.category_name] == s[i]@,
    decreases s.len(),
{
    if i < s.len() - 1 {
        assert(cat_names_unique(s.drop_last()));
        lemma_cat_map_lookup(s.drop_last(), i);
        assert(s.drop_last()[i] == s[i]);
        assert(s.last()@.category_name != s[i]@.category_name);
    }
}

proof fn lemma_pkg_map_lookup(s: Seq<PackageData>, i: int)
    requires
        pkg_names_unique(s),
        0 <= i < s.len(),
    ensures
        pkg_map_of(s).contains_key(s[i]@.package_name),
        pkg_map_of(s)[s[i]@.package_name] == s[i]@,
    decreases s.len(),
{
    if i < s.len() - 1 {
        assert(pkg_names_unique(s.drop_last()));
        lemma_pkg_map_lookup(s.drop_last(), i);
        assert(s.drop_last()[i] == s[i]);
        assert(s.last()@.package_name != s[i]@.package_name);
    }
}

proof fn lemma_cat_map_push(s: Seq<Category>, c: Category)
    ensures
        cat_map_of(s.push(c)) == cat_map_of(s).insert(c@.category_name, c@),
{
    assert(s.push(c).drop_last() =~= s);
    assert(s.push(c).last() == c);
}

proof fn lemma_pkg_map_push(s: Seq<PackageData>, p: PackageData)
    ensures
        pkg_map_of(s.push(p)) == pkg_map_of(s).insert(p@.package_name, p@),
{
    assert(s.push(p).drop_last() =~= s);
    assert(s.push(p).last() == p);
}

proof fn lemma_cat_map_remove(s: Seq<Category>, i: int)
    requires
        cat_names_unique(s),
        0 <= i < s.len(),
    ensures
        cat_map_of(s.remove(i)) == cat_map_of(s).remove(s[i]@.category_name),
    decreases s.len(),
{
    let k = s[i]@.category_name;
    if i == s.len() - 1 {
        assert(s.remove(i) =~= s.drop_last());
        lemma_cat_map_contains(s.drop_last(), k);
        assert(!cat_map_of(s.drop_last()).contains_key(k));
        assert(cat_map_of(s.drop_last()).insert(k, s.last()@).remove(k) =~= cat_map_of(
            s.drop_last(),
        ));
    } else {
        let t = s.drop_last();
        assert(cat_names_unique(t));
        lemma_cat_map_remove(t, i);
        assert(s.remove(i).drop_last() =~= t.remove(i));
        assert(s.remove(i).last() == s.last());
        assert(cat_map_of(s.remove(i)) == cat_map_of(t.remove(i)).insert(
            s.last()@.category_name,
            s.last()@,
        ));
        assert(s.last()@.category_name != k);
        assert(cat_map_of(t).remove(k).insert(s.last()@.category_name, s.last()@)
            =~= cat_map_of(t).insert(s.last()@.category_name, s.last()@).remove(k));
    }
}

proof fn lemma_pkg_map_remove(s: Seq<PackageData>, i: int)
    requires
        pkg_names_unique(s),
        0 <= i < s.len(),
    ensures
        pkg_map_of(s.remove(i)) == pkg_map_of(s).remove(s[i]@.package_name),
    decreases s.len(),
{
    let k = s[i]@.package_name;
    if i == s.len() - 1 {
        assert(s.remove(i) =~= s.drop_last());
        lemma_pkg_map_contains(s.drop_last(), k);
        assert(!pkg_map_of(s.drop_last()).contains_key(k));
        assert(pkg_map_of(s.drop_last()).insert(k, s.last()@).remove(k) =~= pkg_map_of(
            s.drop_last(),
        ));
    } else {
        let t = s.drop_last();
        assert(pkg_names_unique(t));
        lemma_pkg_map_remove(t, i);
        assert(s.remove(i).drop_last() =~= t.remove(i));
        assert(s.remove(i).last() == s.last());
        assert(pkg_map_of(s.remove(i)) == pkg_map_of(t.remove(i)).insert(
            s.last()@.package_name,
            s.last()@,
        ));
        assert(s.last()@.package_name != k);
        assert(pkg_map_of(t).remove(k).insert(s.last()@.package_name, s.last()@)
            =~= pkg_map_of(t).insert(s.last()@.package_name, s.last()@).remove(k));
    }
}

/// The index of the category of that name, if any.
pub(crate) fn find_category(cats: &Vec<Category>, name: &String) -> (r: Option<usize>)
    ensures
        match r {
            Some(i) => i < cats@.len() && cats@[i as int]@.category_name == name@,
            None => forall|i: int|
                0 <= i < cats@.len() ==> (#[trigger] cats@[i])@.category_name != name@,
        },
{
    let mut i: usize = 0;
    while i < cats.len()
        invariant
            i <= cats@.len(),
            forall|j: int| 0 <= j < i ==> (#[trigger] cats@[j])@.category_name != name@,
        decreases cats@.len() - i,
    {
        if cats[i].category_name == *name {
            return Some(i);
        }
        i = i + 1;
    }
    None
}

/// The index of the package of that name, if any.
pub(crate) fn find_package(pkgs: &Vec<PackageData>, name: &String) -> (r: Option<usize>)
    ensures
        match r {
            Some(i) => i < pkgs@.len() && pkgs@[i as int]@.package_name == name@,
            None => forall|i: int|
                0 <= i < pkgs@.len() ==> (#[trigger] pkgs@[i])@.package_name != name@,
        },
{
    let mut i: usize = 0;
    while i < pkgs.len()
        invariant
            i <= pkgs@.len(),
            forall|j: int| 0 <= j < i ==> (#[trigger] pkgs@[j])@.package_name != name@,
        decreases pkgs@.len() - i,
    {
        if pkgs[i].package_name == *name {
            return Some(i);
        }
        i = i + 1;
    }
    None
}

/// An in-memory catalog store: two collections of records, each keyed by
/// name, each name held at most once.
pub struct MemoryStorage {
    cats: Vec<Category>,
    pkgs: Vec<PackageData>,
}

impl MemoryStorage {
    #[verifier::type_invariant]
    spec fn wf(&self) -> bool {
        cat_names_unique(self.cats@) && pkg_names_unique(self.pkgs@)
    }

    /// An empty store.
    pub fn new() -> (r: Self)
        ensures
            r.categories() == Map::<Seq<char>, CategoryView>::empty(),
            r.packages() == Map::<Seq<char>, PackageDataView>::empty(),
    {
        MemoryStorage { cats: Vec::new(), pkgs: Vec::new() }
    }

    /// A store holding exactly the given records; fails when two category
    /// records or two package records share a name.
    pub fn from_records(categories: Vec<Category>, packages: Vec<PackageData>) -> (r: Result<
        Self,
        StoreError,
    >)
        ensures
            r matches Ok(st) ==> st.categories() == cat_map_of(categories@) && st.packages()
                == pkg_map_of(packages@),
            r is Err <==> !cat_names_unique(categories@) || !pkg_names_unique(packages@),
    {
        if !category_names_unique(&categories) {
            return Err(StoreError::InternalStoreError(
                String::from_str("Duplicate category name"),
            ));
        }
        if !package_names_unique(&packages) {
            return Err(StoreError::InternalStoreError(
                String::from_str("Duplicate package name"),
            ));
        }
        Ok(MemoryStorage { cats: categories, pkgs: packages })
    }
}

/// Whether no two of the given category records share a name.
fn category_names_unique(v: &Vec<Category>) -> (r: bool)
    ensures
        r == cat_names_unique(v@),
{
    let mut i: usize = 0;
    while i < v.len()
        invariant
            i <= v@.len(),
            forall|a: int, b: int|
                0 <= a < b < i ==> (#[trigger] v@[a])@.category_name != (
                #[trigger] v@[b])@.category_name,
        decreases v@.len() - i,
    {
        let mut j: usize = 0;
        while j < i
            invariant
                j <= i < v@.len(),
                forall|a: int|
                    0 <= a < j ==> (#[trigger] v@[a])@.category_name != v@[i as int]@.category_name,
            decreases i - j,
        {
            if v[j].category_name == v[i].category_name {
                return false;
            }
            j = j + 1;
        }
        i = i + 1;
    }
    true
}

/// Whether no two of the given package records share a name.
fn package_names_unique(v: &Vec<PackageData>) -> (r: bool)
    ensures
        r == pkg_names_unique(v@),
{
    let mut i: usize = 0;
    while i < v.len()
        invariant
            i <= v@.len(),
            forall|a: int, b: int|
                0 <= a < b < i ==> (#[trigger] v@[a])@.package_name != (
                #[trigger] v@[b])@.package_name,
        decreases v@.len() - i,
    {
        let mut j: usize = 0;
        while j < i
            invariant
                j <= i < v@.len(),
                forall|a: int|
                    0 <= a < j ==> (#[trigger] v@[a])@.package_name != v@[i as int]@.package_name,
            decreases i - j,
        {
            if v[j].package_name == v[i].package_name {
                return false;
            }
            j = j + 1;
        }
        i = i + 1;
    }
    true
}

impl PazckagerStorage for MemoryStorage {
    closed spec fn categories(&self) -> Map<Seq<char>, CategoryView> {
        cat_map_of(self.cats@)
    }

    closed spec fn packages(&self) -> Map<Seq<char>, PackageDataView> {
        pkg_map_of(self.pkgs@)
    }

    fn store_category(&mut self, category: Category) -> (r: StoreResult<()>)
        ensures
            r is Ok,
    {
        proof {
            use_type_invariant(&*self);
        }
        let ghost k = category@.category_name;
        let mut cats: Vec<Category> = Vec::new();
        core::mem::swap(&mut cats, &mut self.cats);
        let ghost s0 = cats@;
        match find_category(&cats, &category.category_name) {
            Some(i) => {
                proof {
                    lemma_cat_map_remove(s0, i as int);
                }
                let _replaced = cats.remove(i);
                proof {
                    assert forall|a: int, b: int| 0 <= a < b < cats@.len() implies (
                    #[trigger] cats@[a])@.category_name != (#[trigger] cats@[b])@.category_name by {
                        if a < i as int {
                            assert(cats@[a] == s0[a]);
                        } else {
                            assert(cats@[a] == s0[a + 1]);
                        }
                        if b < i as int {
                            assert(cats@[b] == s0[b]);
                        } else {
                            assert(cats@[b] == s0[b + 1]);
                        }
                    }
                    assert forall|j: int| 0 <= j < cats@.len() implies (
                    #[trigger] cats@[j])@.category_name != k by {
                        if j < i as int {
                            assert(cats@[j] == s0[j]);
                        } else {
                            assert(cats@[j] == s0[j + 1]);
                        }
                    }
                    assert(cat_map_of(cats@).insert(k, category@) =~= cat_map_of(s0).insert(
                        k,
                        category@,
                    ));
                }
            },
            None => {},
        }
        proof {
            assert forall|a: int, b: int| 0 <= a < b < cats@.push(category).len() implies (
            #[trigger] cats@.push(category)[a])@.category_name != (#[trigger] cats@.push(
                category,
            )[b])@.category_name by {
                if b < cats@.len() {
                    assert(cats@.push(category)[a] == cats@[a]);
                    assert(cats@.push(category)[b] == cats@[b]);
                } else {
                    assert(cats@.push(category)[a] == cats@[a]);
                    assert(cats@.push(category)[b] == category);
                }
            }
            lemma_cat_map_push(cats@, category);
        }
        cats.push(category);
        self.cats = cats;
        Ok(())
    }

    fn get_categories(&self) -> (r: StoreResult<Vec<Category>>)
        ensures
            r is Ok,
    {
        proof {
            use_type_invariant(self);
        }
        let mut out: Vec<Category> = Vec::new();
        let mut i: usize = 0;
        while i < self.cats.len()
            invariant
                i <= self.cats@.len(),
                out@.len() == i,
                forall|j: int| 0 <= j < i ==> (#[trigger] out@[j])@ == self.cats@[j]@,
            decreases self.cats@.len() - i,
        {
            out.push(self.cats[i].clone());
            i = i + 1;
        }
        proof {
            use_type_invariant(self);
            assert forall|j: int| 0 <= j < out@.len() implies self.categories().contains_pair(
                (#[trigger] out@[j])@.category_name,
                out@[j]@,
            ) by {
                lemma_cat_map_lookup(self.cats@, j);
            }
            assert forall|k: Seq<char>| self.categories().contains_key(k) implies exists|j: int|
                0 <= j < out@.len() && (#[trigger] out@[j])@.category_name == k by {
                lemma_cat_map_contains(self.cats@, k);
                let t = choose|t: int|
                    0 <= t < self.cats@.len() && (#[trigger] self.cats@[t])@.category_name == k;
                assert(out@[t]@.category_name == k);
            }
        }
        Ok(out)
    }

    fn category_exists(&self, category_name: &str) -> (r: StoreResult<bool>)
        ensures
            r is Ok,
    {
        let needle = String::from_str(category_name);
        let found = find_category(&self.cats, &needle);
        proof {
            lemma_cat_map_contains(self.cats@, category_name@);
        }
        Ok(found.is_some())
    }

    fn remove_category(&mut self) -> (r: StoreResult<()>)
        ensures
            r is Ok,
    {
        proof {
            use_type_invariant(&*self);
        }
        self.cats = Vec::new();
        Ok(())
    }

    fn store_package(&mut self, package: PackageData) -> (r: StoreResult<()>)
        ensures
            r is Ok,
    {
        proof {
            use_type_invariant(&*self);
        }
        let ghost k = package@.package_name;
        let mut pkgs: Vec<PackageData> = Vec::new();
        core::mem::swap(&mut pkgs, &mut self.pkgs);
        let ghost s0 = pkgs@;
        match find_package(&pkgs, &package.package_name) {
            Some(i) => {
                proof {
                    lemma_pkg_map_remove(s0, i as int);
                }
                let _replaced = pkgs.remove(i);
                proof {
                    assert forall|a: int, b: int| 0 <= a < b < pkgs@.len() implies (
                    #[trigger] pkgs@[a])@.package_name != (#[trigger] pkgs@[b])@.package_name by {
                        if a < i as int {
                            assert(pkgs@[a] == s0[a]);
                        } else {
                            assert(pkgs@[a] == s0[a + 1]);
                        }
                        if b < i as int {
                            assert(pkgs@[b] == s0[b]);
                        } else {
                            assert(pkgs@[b] == s0[b + 1]);
                        }
                    }
                    assert forall|j: int| 0 <= j < pkgs@.len() implies (
                    #[trigger] pkgs@[j])@.package_name != k by {
                        if j < i as int {
                            assert(pkgs@[j] == s0[j]);
                        } else {
                            assert(pkgs@[j] == s0[j + 1]);
                        }
                    }
                    assert(pkg_map_of(pkgs@).insert(k, package@) =~= pkg_map_of(s0).insert(
                        k,
                        package@,
                    ));
                }
            },
            None => {},
        }
        proof {
            assert forall|a: int, b: int| 0 <= a < b < pkgs@.push(package).len() implies (
            #[trigger] pkgs@.push(package)[a])@.package_name != (#[trigger] pkgs@.push(
                package,
            )[b])@.package_name by {
                if b < pkgs@.len() {
                    assert(pkgs@.push(package)[a] == pkgs@[a]);
                    assert(pkgs@.push(package)[b] == pkgs@[b]);
                } else {
                    assert(pkgs@.push(package)[a] == pkgs@[a]);
                    assert(pkgs@.push(package)[b] == package);
                }
            }
            lemma_pkg_map_push(pkgs@, package);
        }
        pkgs.push(package);
        self.pkgs = pkgs;
        Ok(())
    }

    fn update_package(&mut self, package: PackageData) -> (r: StoreResult<()>)
        ensures
            r is Ok,
    {
        self.store_package(package)
    }

    fn get_packages(&self) -> (r: StoreResult<Vec<PackageData>>)
        ensures
            r is Ok,
    {
        proof {
            use_type_invariant(self);
        }
        let mut out: Vec<PackageData> = Vec::new();
        let mut i: usize = 0;
        while i < self.pkgs.len()
            invariant
                i <= self.pkgs@.len(),
                out@.len() == i,
                forall|j: int| 0 <= j < i ==> (#[trigger] out@[j])@ == self.pkgs@[j]@,
            decreases self.pkgs@.len() - i,
        {
            out.push(self.pkgs[i].clone());
            i = i + 1;
        }
        proof {
            use_type_invariant(self);
            assert forall|j: int| 0 <= j < out@.len() implies self.packages().contains_pair(
                (#[trigger] out@[j])@.package_name,
                out@[j]@,
            ) by {
                lemma_pkg_map_lookup(self.pkgs@, j);
            }
            assert forall|k: Seq<char>| self.packages().contains_key(k) implies exists|j: int|
                0 <= j < out@.len() && (#[trigger] out@[j])@.package_name == k by {
                lemma_pkg_map_contains(self.pkgs@, k);
                let t = choose|t: int|
                    0 <= t < self.pkgs@.len() && (#[trigger] self.pkgs@[t])@.package_name == k;
                assert(out@[t]@.package_name == k);
            }
        }
        Ok(out)
    }

    fn package_exists(&self, package_name: &str) -> (r: StoreResult<bool>)
        ensures
            r is Ok,
    {
        let needle = String::from_str(package_name);
        let found = find_package(&self.pkgs, &needle);
        proof {
            lemma_pkg_map_contains(self.pkgs@, package_name@);
        }
        Ok(found.is_some())
    }

    fn get_package(&self, package_name: &str) -> (r: StoreResult<PackageData>)
        ensures
            r is Ok <==> self.packages().contains_key(package_name@),
    {
        proof {
            use_type_invariant(self);
        }
        let needle = String::from_str(package_name);
        match find_package(&self.pkgs, &needle) {
            Some(i) => {
                proof {
                    lemma_pkg_map_lookup(self.pkgs@, i as int);
                }
                Ok(self.pkgs[i].clone())
            },
            None => {
                proof {
                    lemma_pkg_map_contains(self.pkgs@, package_name@);
                }
                Err(StoreError::InternalStoreError(String::from_str("Package not found")))
            },
        }
    }

    fn get_packages_by_category(&self, category_name: &str) -> (r: StoreResult<Vec<PackageData>>)
        ensures
            r is Ok,
    {
        proof {
            use_type_invariant(self);
        }
        let needle = String::from_str(category_name);
        let mut out: Vec<PackageData> = Vec::new();
        let mut i: usize = 0;
        while i < self.pkgs.len()
            invariant
                i <= self.pkgs@.len(),
                needle@ == category_name@,
                pkg_names_unique(self.pkgs@),
                forall|j: int| 0 <= j < out@.len() ==> exists|t: int|
                    0 <= t < i && (#[trigger] out@[j])@ == (#[trigger] self.pkgs@[t])@,
                forall|j: int|
                    0 <= j < out@.len() ==> (#[trigger] out@[j])@.category_name == category_name@,
                forall|t: int|
                    0 <= t < i && (#[trigger] self.pkgs@[t])@.category_name == category_name@
                        ==> exists|j: int|
                        0 <= j < out@.len() && (#[trigger] out@[j])@.package_name
                            == self.pkgs@[t]@.package_name,
                forall|j1: int, j2: int|
                    0 <= j1 < j2 < out@.len() ==> (#[trigger] out@[j1])@.package_name
                        != (#[trigger] out@[j2])@.package_name,
            decreases self.pkgs@.len() - i,
        {
            if self.pkgs[i].category_name == needle {
                proof {
                    assert forall|j: int| 0 <= j < out@.len() implies (#[trigger] out@[j])@.package_name
                        != self.pkgs@[i as int]@.package_name by {
                        let t = choose|t: int|
                            0 <= t < i && (#[trigger] out@[j])@ == (#[trigger] self.pkgs@[t])@;
                        assert(self.pkgs@[t]@.package_name != self.pkgs@[i as int]@.package_name);
                    }
                }
                let ghost out0 = out@;
                out.push(self.pkgs[i].clone());
                proof {
                    assert(out@[out@.len() - 1]@ == self.pkgs@[i as int]@);
                    assert(out@[out@.len() - 1]@.category_name == category_name@);
                    assert forall|t: int|
                        0 <= t < i + 1 && (#[trigger] self.pkgs@[t])@.category_name
                            == category_name@ implies exists|j: int|
                        0 <= j < out@.len() && (#[trigger] out@[j])@.package_name
                            == self.pkgs@[t]@.package_name by {
                        if t < i as int {
                            let j = choose|j: int|
                                0 <= j < out0.len() && (#[trigger] out0[j])@.package_name
                                    == self.pkgs@[t]@.package_name;
                            assert(out@[j]@.package_name == self.pkgs@[t]@.package_name);
                        } else {
                            assert(out@[out@.len() - 1]@.package_name
                                == self.pkgs@[t]@.package_name);
                        }
                    }
                }
            }
            i = i + 1;
        }
        proof {
            assert forall|j: int| 0 <= j < out@.len() implies self.packages().contains_pair(
                (#[trigger] out@[j])@.package_name,
                out@[j]@,
            ) by {
                let t = choose|t: int|
                    0 <= t < self.pkgs@.len() && out@[j]@ == (#[trigger] self.pkgs@[t])@;
                lemma_pkg_map_lookup(self.pkgs@, t);
            }
            assert forall|k: Seq<char>|
                self.packages().contains_key(k) && (#[trigger] self.packages()[k]).category_name
                    == category_name@ implies exists|j: int|
                0 <= j < out@.len() && (#[trigger] out@[j])@.package_name == k by {
                lemma_pkg_map_contains(self.pkgs@, k);
                let t = choose|t: int|
                    0 <= t < self.pkgs@.len() && (#[trigger] self.pkgs@[t])@.package_name == k;
                lemma_pkg_map_lookup(self.pkgs@, t);
                assert(self.pkgs@[t]@.category_name == category_name@);
            }
        }
        Ok(out)
    }

    fn remove_package(&mut self, package_name: &str) -> (r: StoreResult<()>)
        ensures
            r is Ok,
    {
        proof {
            use_type_invariant(&*self);
        }
        let needle = String::from_str(package_name);
        let mut pkgs: Vec<PackageData> = Vec::new();
        core::mem::swap(&mut pkgs, &mut self.pkgs);
        let ghost s0 = pkgs@;
        match find_package(&pkgs, &needle) {
            Some(i) => {
                proof {
                    lemma_pkg_map_remove(s0, i as int);
                }
                let _removed = pkgs.remove(i);
                proof {
                    assert forall|a: int, b: int| 0 <= a < b < pkgs@.len() implies (
                    #[trigger] pkgs@[a])@.package_name != (#[trigger] pkgs@[b])@.package_name by {
                        if a < i as int {
                            assert(pkgs@[a] == s0[a]);
                        } else {
                            assert(pkgs@[a] == s0[a + 1]);
                        }
                        if b < i as int {
                            assert(pkgs@[b] == s0[b]);
                        } else {
                            assert(pkgs@[b] == s0[b + 1]);
                        }
                    }
                }
            },
            None => {
                proof {
                    lemma_pkg_map_contains(s0, package_name@);
                    assert(pkg_map_of(s0).remove(package_name@) =~= pkg_map_of(s0));
                }
            },
        }
        self.pkgs = pkgs;
        Ok(())
    }
}

} // verus!
