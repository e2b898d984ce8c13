use vstd::prelude::*;
use crate::address::{Address, ADDRESS_LENGTH};
use crate::model::{Enum, Function, Struct};

verus! {

/// A value under a name; lists of these keep their names distinct.
pub struct Named<T> {
    pub name: String,
    pub value: T,
}

/// The definitions of one module, each list keyed by definition name.
pub struct Module {
    pub name: String,
    pub functions: Vec<Named<Function>>,
    pub structs: Vec<Named<Struct>>,
    pub enums: Vec<Named<Enum>>,
}

/// A package: its display name, if any, and its modules keyed by module file stem.
pub struct Package {
    pub name: Option<String>,
    pub modules: Vec<Named<Module>>,
}

pub struct PackageEntry {
    pub address: Address,
    pub package: Package,
}

/// Why a query found nothing.
#[derive(PartialEq, Eq, Structural, Clone, Copy, Debug)]
pub enum QueryError {
    PackageNotFound,
    ModuleNotFound,
    DefinitionNotFound,
}

/// A definition found by name.
pub enum Definition<'a> {
    Function(&'a Function),
    Struct(&'a Struct),
    Enum(&'a Enum),
}

/// `a` and `b` first differ at `k`, where `a` is the smaller.
pub open spec fn lt_at(a: Seq<u8>, b: Seq<u8>, k: int) -> bool {
    &&& 0 <= k < a.len()
    &&& k < b.len()
    &&& forall|j: int| 0 <= j < k ==> a[j] == b[j]
    &&& a[k] < b[k]
}

/// Lexicographic order on byte strings.
pub open spec fn bytes_lt(a: Seq<u8>, b: Seq<u8>) -> bool {
    exists|k: int| lt_at(a, b, k)
}

/// Addresses strictly ascend along the entries.
pub open spec fn ascending(es: Seq<PackageEntry>) -> bool {
    forall|i: int, j: int|
        0 <= i < j < es.len() ==> bytes_lt(#[trigger] es[i].address@, #[trigger] es[j].address@)
}

pub open spec fn has_address(es: Seq<PackageEntry>, a: Seq<u8>) -> bool {
    exists|i: int| 0 <= i < es.len() && (#[trigger] es[i]).address@ == a
}

/// The catalog as a map from address to package.
pub open spec fn catalog_map(es: Seq<PackageEntry>) -> Map<Seq<u8>, Package> {
    Map::new(
        |a: Seq<u8>| has_address(es, a),
        |a: Seq<u8>| es[choose|i: int| 0 <= i < es.len() && (#[trigger] es[i]).address@ == a].package,
    )
}

pub open spec fn package_named(e: PackageEntry, name: Seq<char>) -> bool {
    e.package.name is Some && e.package.name->0@ == name
}

pub open spec fn has_package(es: Seq<PackageEntry>, name: Seq<char>) -> bool {
    exists|i: int| 0 <= i < es.len() && package_named(#[trigger] es[i], name)
}

/// Entry `i` is the first package with display name `name`.
pub open spec fn first_package(es: Seq<PackageEntry>, name: Seq<char>, i: int) -> bool {
    &&& 0 <= i < es.len()
    &&& package_named(es[i], name)
    &&& forall|j: int| 0 <= j < i ==> !package_named(#[trigger] es[j], name)
}

pub open spec fn has_named<T>(items: Seq<Named<T>>, name: Seq<char>) -> bool {
    exists|i: int| 0 <= i < items.len() && (#[trigger] items[i]).name@ == name
}

/// Item `i` is the first one under `name`.
pub open spec fn first_named<T>(items: Seq<Named<T>>, name: Seq<char>, i: int) -> bool {
    &&& 0 <= i < items.len()
    &&& items[i].name@ == name
    &&& forall|j: int| 0 <= j < i ==> (#[trigger] items[j]).name@ != name
}

pub open spec fn has_module(ms: Seq<Named<Module>>, name: Seq<char>) -> bool {
    exists|i: int| 0 <= i < ms.len() && (#[trigger] ms[i]).value.name@ == name
}

/// Module `i` is the first one whose own name is `name`.
pub open spec fn first_module(ms: Seq<Named<Module>>, name: Seq<char>, i: int) -> bool {
    &&& 0 <= i < ms.len()
    &&& ms[i].value.name@ == name
    &&& forall|j: int| 0 <= j < i ==> (#[trigger] ms[j]).value.name@ != name
}

/// The display names of the named packages, in catalog order.
pub open spec fn package_names(es: Seq<PackageEntry>) -> Seq<Seq<char>>
    decreases es.len(),
{
    if es.len() == 0 {
        Seq::empty()
    } else {
        let e = es[es.len() - 1];
        package_names(es.subrange(0, es.len() - 1)) + if e.package.name is Some {
            seq![e.package.name->0@]
        } else {
            Seq::empty()
        }
    }
}

/// The own names of the modules, in package order.
pub open spec fn module_names(ms: Seq<Named<Module>>) -> Seq<Seq<char>> {
    ms.map_values(|m: Named<Module>| m.value.name@)
}

pub open spec fn string_views(v: Seq<String>) -> Seq<Seq<char>> {
    v.map_values(|s: String| s@)
}

pub proof fn lemma_lt_trans(a: Seq<u8>, b: Seq<u8>, c: Seq<u8>)
    requires
        bytes_lt(a, b),
        bytes_lt(b, c),
    ensures
        bytes_lt(a, c),
{
    let k1 = choose|k: int| lt_at(a, b, k);
    let k2 = choose|k: int| lt_at(b, c, k);
    let k = if k1 < k2 { k1 } else { k2 };
    assert(lt_at(a, c, k));
}

pub proof fn lemma_lt_ne(a: Seq<u8>, b: Seq<u8>)
    requires
        bytes_lt(a, b),
    ensures
        a != b,
{
    let k = choose|k: int| lt_at(a, b, k);
    assert(a[k] != b[k]);
}

/// In an ascending catalog, the map sends each entry's address to its package.
pub proof fn lemma_map_at(es: Seq<PackageEntry>, i: int)
    requires
        ascending(es),
        0 <= i < es.len(),
    ensures
        catalog_map(es).contains_key(es[i].address@),
        catalog_map(es)[es[i].address@] == es[i].package,
{
    let a = es[i].address@;
    assert(has_address(es, a));
    let j = choose|j: int| 0 <= j < es.len() && (#[trigger] es[j]).address@ == a;
    if j < i {
        lemma_lt_ne(es[j].address@, es[i].address@);
    } else if i < j {
        lemma_lt_ne(es[i].address@, es[j].address@);
    }
}

/// The result of comparing two addresses.
enum Order {
    Less,
    Equal,
    Greater,
}

fn compare_addresses(a: &Address, b: &Address) -> (r: Order)
    requires
        a.wf(),
        b.wf(),
    ensures
        r is Less ==> bytes_lt(a@, b@),
        r is Equal ==> a@ == b@,
        r is Greater ==> bytes_lt(b@, a@),
{
    let mut k: usize = 0;
    while k < ADDRESS_LENGTH
        invariant
            a.wf(),
            b.wf(),
            k <= ADDRESS_LENGTH,
            forall|j: int| 0 <= j < k ==> a@[j] == b@[j],
        decreases ADDRESS_LENGTH - k,
    {
        if a.bytes[k] < b.bytes[k] {
            assert(lt_at(a@, b@, k as int));
            return Order::Less;
        }
        if a.bytes[k] > b.bytes[k] {
            assert(lt_at(b@, a@, k as int));
            return Order::Greater;
        }
        k = k + 1;
    }
    assert(a@ =~= b@);
    Order::Equal
}

fn text_eq(a: &String, b: &str) -> (r: bool)
    ensures
        r == (a@ == b@),
{
    let t = String::from_str(b);
    *a == t
}

/// The index of the first package named `name`.
pub open spec fn package_index(es: Seq<PackageEntry>, name: Seq<char>) -> int {
    choose|i: int| first_package(es, name, i)
}

/// The index of the first item under `name`.
pub open spec fn named_index<T>(items: Seq<Named<T>>, name: Seq<char>) -> int {
    choose|i: int| first_named(items, name, i)
}

/// The module that a lookup by package display name and module name finds, if any.
pub open spec fn lookup_module(es: Seq<PackageEntry>, package: Seq<char>, module: Seq<char>) -> Option<Module> {
    if has_package(es, package) {
        let ms = es[package_index(es, package)].package.modules@;
        if has_module(ms, module) {
            Some(ms[choose|j: int| first_module(ms, module, j)].value)
        } else {
            None
        }
    } else {
        None
    }
}

/// The first item under `name`, if any.
pub open spec fn lookup_named<T>(items: Seq<Named<T>>, name: Seq<char>) -> Option<T> {
    if has_named(items, name) {
        Some(items[named_index(items, name)].value)
    } else {
        None
    }
}

/// The first index that holds the package named `name`.
fn find_package(es: &Vec<PackageEntry>, name: &str) -> (r: Option<usize>)
    ensures
        r is None <==> !has_package(es@, name@),
        r is Some ==> first_package(es@, name@, r->0 as int) && r->0 as int == package_index(
            es@,
            name@,
        ),
{
    let mut i: usize = 0;
    while i < es.len()
        invariant
            i <= es@.len(),
            forall|j: int| 0 <= j < i ==> !package_named(#[trigger] es@[j], name@),
        decreases es@.len() - i,
    {
        match &es[i].package.name {
            Some(n) => {
                if text_eq(n, name) {
                    assert(first_package(es@, name@, i as int));
                    let ghost k = package_index(es@, name@);
                    assert(first_package(es@, name@, k));
                    assert(k == i) by {
                        if k < i {
                            assert(!package_named(es@[k], name@));
                        } else if k > i {
                            assert(!package_named(es@[i as int], name@));
                        }
                    }
                    return Some(i);
                }
            },
            None => {},
        }
        i = i + 1;
    }
    None
}

/// The first index that holds a module whose own name is `name`.
fn find_module(ms: &Vec<Named<Module>>, name: &str) -> (r: Option<usize>)
    ensures
        r is None <==> !has_module(ms@, name@),
        r is Some ==> r->0 as int == (choose|j: int| first_module(ms@, name@, j)) && first_module(
            ms@,
            name@,
            r->0 as int,
        ),
{
    let mut i: usize = 0;
    while i < ms.len()
        invariant
            i <= ms@.len(),
            forall|j: int| 0 <= j < i ==> (#[trigger] ms@[j]).value.name@ != name@,
        decreases ms@.len() - i,
    {
        if text_eq(&ms[i].value.name, name) {
            assert(first_module(ms@, name@, i as int));
            let ghost k = choose|j: int| first_module(ms@, name@, j);
            assert(first_module(ms@, name@, k));
            assert(k == i) by {
                if k < i {
                    assert(ms@[k].value.name@ != name@);
                } else if k > i {
                    assert(ms@[i as int].value.name@ != name@);
                }
            }
            return Some(i);
        }
        i = i + 1;
    }
    None
}

/// The first index that holds an item under `name`.
pub(crate) fn find_named<T>(items: &Vec<Named<T>>, name: &str) -> (r: Option<usize>)
    ensures
        r is None <==> !has_named(items@, name@),
        r is Some ==> first_named(items@, name@, r->0 as int) && r->0 as int == named_index(
            items@,
            name@,
        ),
{
    let mut i: usize = 0;
    while i < items.len()
        invariant
            i <= items@.len(),
            forall|j: int| 0 <= j < i ==> (#[trigger] items@[j]).name@ != name@,
        decreases items@.len() - i,
    {
        if text_eq(&items[i].name, name) {
            assert(first_named(items@, name@, i as int));
            let ghost k = named_index(items@, name@);
            assert(first_named(items@, name@, k));
            assert(k == i) by {
                if k < i {
                    assert(items@[k].name@ != name@);
                } else if k > i {
                    assert(items@[i as int].name@ != name@);
                }
            }
            return Some(i);
        }
        i = i + 1;
    }
    None
}

/// The catalog of packages, keyed by address and in ascending address order.
pub struct PackageTree {
    packages: Vec<PackageEntry>,
}

impl PackageTree {
    pub closed spec fn view(&self) -> Seq<PackageEntry> {
        self.packages@
    }

    /// Every address is well formed and the addresses strictly ascend.
    pub open spec fn wf(&self) -> bool {
        &&& forall|i: int| 0 <= i < self@.len() ==> (#[trigger] self@[i]).address.wf()
        &&& ascending(self@)
    }

    /// An empty catalog.
    pub(crate) fn empty() -> (r: PackageTree)
        ensures
            r.wf(),
            r@.len() == 0,
    {
        PackageTree { packages: Vec::new() }
    }

    /// The display names of the packages that have one, in ascending address order.
    pub fn list_packages(&self) -> (r: Vec<String>)
        ensures
            string_views(r@) == package_names(self@),
    {
        let mut r: Vec<String> = Vec::new();
        let mut i: usize = 0;
        while i < self.packages.len()
            invariant
                i <= self@.len(),
                string_views(r@) == package_names(self@.subrange(0, i as int)),
            decreases self@.len() - i,
        {
            match &self.packages[i].package.name {
                Some(n) => {
                    r.push(n.clone());
                },
                None => {},
            }
            proof {
                let next = self@.subrange(0, i + 1);
                assert(next.subrange(0, i as int) =~= self@.subrange(0, i as int));
                assert(string_views(r@) =~= package_names(next));
            }
            i = i + 1;
        }
        assert(self@.subrange(0, self@.len() as int) =~= self@);
        r
    }

    /// The first package whose display name is `package`.
    pub fn get_package(&self, package: &str) -> (r: Option<&Package>)
        ensures
            r is Some <==> has_package(self@, package@),
            r is Some ==> *r->0 == self@[package_index(self@, package@)].package,
    {
        match find_package(&self.packages, package) {
            Some(i) => Some(&self.packages[i].package),
            None => None,
        }
    }

    /// The own names of the modules of the first package named `package`, in package order.
    pub fn list_modules(&self, package: &str) -> (r: Result<Vec<String>, QueryError>)
        ensures
            r is Err <==> !has_package(self@, package@),
            r is Err ==> r->Err_0 == QueryError::PackageNotFound,
            r is Ok ==> string_views(r->Ok_0@) == module_names(
                self@[package_index(self@, package@)].package.modules@,
            ),
    {
        let pkg = match self.get_package(package) {
            Some(p) => p,
            None => {
                return Err(QueryError::PackageNotFound);
            },
        };
        let ms = &pkg.modules;
        let mut r: Vec<String> = Vec::new();
        let mut i: usize = 0;
        while i < ms.len()
            invariant
                i <= ms@.len(),
                r@.len() == i,
                string_views(r@) == module_names(ms@.subrange(0, i as int)),
            decreases ms@.len() - i,
        {
            let ghost prev = r@;
            let name = ms[i].value.name.clone();
            assert(name@ == ms@[i as int].value.name@);
            r.push(name);
            proof {
                let want = module_names(ms@.subrange(0, i + 1));
                assert forall|k: int| 0 <= k < i + 1 implies string_views(r@)[k] == want[k] by {
                    if k < i {
                        assert(string_views(prev)[k] == module_names(ms@.subrange(0, i as int))[k]);
                    }
                }
                assert(string_views(r@) =~= want);
            }
            i = i + 1;
        }
        assert(ms@.subrange(0, ms@.len() as int) =~= ms@);
        Ok(r)
    }

    /// The module named `module` of the first package named `package`.
    pub fn get_module(&self, package: &str, module: &str) -> (r: Result<&Module, QueryError>)
        ensures
            r is Ok <==> lookup_module(self@, package@, module@) is Some,
            r is Ok ==> *r->Ok_0 == lookup_module(self@, package@, module@)->0,
            r is Err ==> r->Err_0 == if has_package(self@, package@) {
                QueryError::ModuleNotFound
            } else {
                QueryError::PackageNotFound
            },
    {
        let pkg = match self.get_package(package) {
            Some(p) => p,
            None => {
                return Err(QueryError::PackageNotFound);
            },
        };
        match find_module(&pkg.modules, module) {
            Some(j) => Ok(&pkg.modules[j].value),
            None => Err(QueryError::ModuleNotFound),
        }
    }

    /// The function `function_name` of the module found as `get_module` finds it.
    pub fn get_function(&self, package: &str, module: &str, function_name: &str) -> (r: Option<&Function>)
        ensures
            r is Some <==> lookup_module(self@, package@, module@) is Some && lookup_named(
                lookup_module(self@, package@, module@)->0.functions@,
                function_name@,
            ) is Some,
            r is Some ==> *r->0 == lookup_named(
                lookup_module(self@, package@, module@)->0.functions@,
                function_name@,
            )->0,
    {
        let m = match self.get_module(package, module) {
            Ok(m) => m,
            Err(_) => {
                return None;
            },
        };
        match find_named(&m.functions, function_name) {
            Some(j) => Some(&m.functions[j].value),
            None => None,
        }
    }

    /// The struct `struct_name` of the module found as `get_module` finds it.
    pub fn get_struct(&self, package: &str, module: &str, struct_name: &str) -> (r: Option<&Struct>)
        ensures
            r is Some <==> lookup_module(self@, package@, module@) is Some && lookup_named(
                lookup_module(self@, package@, module@)->0.structs@,
                struct_name@,
            ) is Some,
            r is Some ==> *r->0 == lookup_named(
                lookup_module(self@, package@, module@)->0.structs@,
                struct_name@,
            )->0,
    {
        let m = match self.get_module(package, module) {
            Ok(m) => m,
            Err(_) => {
                return None;
            },
        };
        match find_named(&m.structs, struct_name) {
            Some(j) => Some(&m.structs[j].value),
            None => None,
        }
    }

    /// The enum `enum_name` of the module found as `get_module` finds it.
    pub fn get_enum(&self, package: &str, module: &str, enum_name: &str) -> (r: Option<&Enum>)
        ensures
            r is Some <==> lookup_module(self@, package@, module@) is Some && lookup_named(
                lookup_module(self@, package@, module@)->0.enums@,
                enum_name@,
            ) is Some,
            r is Some ==> *r->0 == lookup_named(
                lookup_module(self@, package@, module@)->0.enums@,
                enum_name@,
            )->0,
    {
        let m = match self.get_module(package, module) {
            Ok(m) => m,
            Err(_) => {
                return None;
            },
        };
        match find_named(&m.enums, enum_name) {
            Some(j) => Some(&m.enums[j].value),
            None => None,
        }
    }

    /// The definition `definition_name` of a module: a function if there is one under
    /// that name, else a struct, else an enum.
    pub fn get_definition(&self, package: &str, module: &str, definition_name: &str) -> (r: Result<
        Definition<'_>,
        QueryError,
    >)
        ensures
            lookup_module(self@, package@, module@) is None ==> r is Err && r->Err_0 == if has_package(
                self@,
                package@,
            ) {
                QueryError::ModuleNotFound
            } else {
                QueryError::PackageNotFound
            },
            lookup_module(self@, package@, module@) matches Some(m) ==> {
                let f = lookup_named(m.functions@, definition_name@);
                let s = lookup_named(m.structs@, definition_name@);
                let e = lookup_named(m.enums@, definition_name@);
                &&& f is Some ==> r is Ok && r->Ok_0 is Function && *r->Ok_0->Function_0 == f->0
                &&& f is None && s is Some ==> r is Ok && r->Ok_0 is Struct && *r->Ok_0->Struct_0 == s->0
                &&& f is None && s is None && e is Some ==> r is Ok && r->Ok_0 is Enum
                    && *r->Ok_0->Enum_0 == e->0
                &&& f is None && s is None && e is None ==> r is Err && r->Err_0
                    == QueryError::DefinitionNotFound
            },
    {
        let m = match self.get_module(package, module) {
            Ok(m) => m,
            Err(e) => {
                return Err(e);
            },
        };
        if let Some(j) = find_named(&m.functions, definition_name) {
            return Ok(Definition::Function(&m.functions[j].value));
        }
        if let Some(j) = find_named(&m.structs, definition_name) {
            return Ok(Definition::Struct(&m.structs[j].value));
        }
        if let Some(j) = find_named(&m.enums, definition_name) {
            return Ok(Definition::Enum(&m.enums[j].value));
        }
        Err(QueryError::DefinitionNotFound)
    }

    /// Adds a package under `address`, replacing one already there.
    pub(crate) fn insert(&mut self, address: Address, package: Package)
        requires
            old(self).wf(),
            address.wf(),
        ensures
            final(self).wf(),
            catalog_map(final(self)@) == catalog_map(old(self)@).insert(address@, package),
            final(self)@.len() <= old(self)@.len() + 1,
    {
        let ghost es = old(self)@;
        let n = self.packages.len();
        let mut i: usize = 0;
        while i < n
            invariant
                self@ == es,
                es == old(self)@,
                self.wf(),
                address.wf(),
                n == es.len(),
                i <= n,
                forall|j: int| 0 <= j < i ==> bytes_lt(#[trigger] es[j].address@, address@),
            decreases n - i,
        {
            match compare_addresses(&self.packages[i].address, &address) {
                Order::Less => {
                    i = i + 1;
                },
                Order::Equal => {
                    let e = PackageEntry { address, package };
                    proof {
                        lemma_update_at(es, i as int, e);
                    }
                    self.packages[i] = e;
                    return;
                },
                Order::Greater => {
                    let e = PackageEntry { address, package };
                    proof {
                        lemma_insert_at(es, i as int, e);
                    }
                    self.packages.insert(i, e);
                    return;
                },
            }
        }
        let e = PackageEntry { address, package };
        proof {
            lemma_insert_at(es, i as int, e);
            assert(es.insert(i as int, e) =~= es.push(e));
        }
        self.packages.push(e);
    }
}

proof fn lemma_update_at(es: Seq<PackageEntry>, i: int, e: PackageEntry)
    requires
        ascending(es),
        0 <= i < es.len(),
        es[i].address@ == e.address@,
    ensures
        ascending(es.update(i, e)),
        catalog_map(es.update(i, e)) == catalog_map(es).insert(e.address@, e.package),
{
    let ns = es.update(i, e);
    assert forall|j: int| 0 <= j < ns.len() implies (#[trigger] ns[j]).address@ == es[j].address@ by {}
    assert forall|x: int, y: int| 0 <= x < y < ns.len() implies bytes_lt(
        #[trigger] ns[x].address@,
        #[trigger] ns[y].address@,
    ) by {
        assert(bytes_lt(es[x].address@, es[y].address@));
    }
    let m = catalog_map(es).insert(e.address@, e.package);
    assert forall|b: Seq<u8>| #[trigger] catalog_map(ns).contains_key(b) <==> m.contains_key(b) by {
        if has_address(ns, b) {
            let j = choose|j: int| 0 <= j < ns.len() && (#[trigger] ns[j]).address@ == b;
            assert(es[j].address@ == b);
        }
        if has_address(es, b) {
            let j = choose|j: int| 0 <= j < es.len() && (#[trigger] es[j]).address@ == b;
            assert(ns[j].address@ == b);
        }
        if b == e.address@ {
            assert(ns[i].address@ == b);
        }
    }
    assert forall|b: Seq<u8>| #[trigger] catalog_map(ns).contains_key(b) implies catalog_map(ns)[b]
        == m[b] by {
        let j = choose|j: int| 0 <= j < ns.len() && (#[trigger] ns[j]).address@ == b;
        lemma_map_at(ns, j);
        if j != i {
            lemma_map_at(es, j);
            lemma_map_at(es, i);
        }
    }
    assert(catalog_map(ns) =~= m);
}

proof fn lemma_insert_at(es: Seq<PackageEntry>, i: int, e: PackageEntry)
    requires
        ascending(es),
        0 <= i <= es.len(),
        forall|j: int| 0 <= j < i ==> bytes_lt(#[trigger] es[j].address@, e.address@),
        i < es.len() ==> bytes_lt(e.address@, es[i].address@),
    ensures
        ascending(es.insert(i, e)),
        catalog_map(es.insert(i, e)) == catalog_map(es).insert(e.address@, e.package),
{
    let ns = es.insert(i, e);
    assert forall|x: int, y: int| 0 <= x < y < ns.len() implies bytes_lt(
        #[trigger] ns[x].address@,
        #[trigger] ns[y].address@,
    ) by {
        if y < i {
            assert(bytes_lt(es[x].address@, es[y].address@));
        } else if y == i {
        } else if x < i {
            assert(bytes_lt(es[x].address@, es[y - 1].address@));
        } else if x == i {
            if y - 1 > i {
                assert(bytes_lt(es[i].address@, es[y - 1].address@));
                lemma_lt_trans(e.address@, es[i].address@, es[y - 1].address@);
            }
        } else {
            assert(bytes_lt(es[x - 1].address@, es[y - 1].address@));
        }
    }
    let m = catalog_map(es).insert(e.address@, e.package);
    assert forall|b: Seq<u8>| #[trigger] catalog_map(ns).contains_key(b) <==> m.contains_key(b) by {
        if has_address(ns, b) {
            let j = choose|j: int| 0 <= j < ns.len() && (#[trigger] ns[j]).address@ == b;
            if j < i {
                assert(es[j].address@ == b);
            } else if j > i {
                assert(es[j - 1].address@ == b);
            }
        }
        if has_address(es, b) {
            let j = choose|j: int| 0 <= j < es.len() && (#[trigger] es[j]).address@ == b;
            if j < i {
                assert(ns[j].address@ == b);
            } else {
                assert(ns[j + 1].address@ == b);
            }
        }
        if b == e.address@ {
            assert(ns[i].address@ == b);
        }
    }
    assert forall|b: Seq<u8>| #[trigger] catalog_map(ns).contains_key(b) implies catalog_map(ns)[b]
        == m[b] by {
        let j = choose|j: int| 0 <= j < ns.len() && (#[trigger] ns[j]).address@ == b;
        lemma_map_at(ns, j);
        if j < i {
            lemma_map_at(es, j);
            lemma_lt_ne(ns[j].address@, ns[i].address@);
        } else if j > i {
            lemma_map_at(es, j - 1);
            lemma_lt_ne(ns[i].address@, ns[j].address@);
        }
    }
    assert(catalog_map(ns) =~= m);
}

} // verus!
