use vstd::prelude::*;
use crate::address::{is_address_literal, literal_bytes, parse_address_literal, Address};
use crate::catalog::{
    catalog_map, find_named, has_named, named_index, Module, Named, Package, PackageTree,
};

verus! {

/// Why a summaries listing could not be turned into a catalog.
pub enum CatalogError {
    /// The root is not a directory.
    InvalidRootPath,
    /// The root holds no address-mapping file.
    MissingMappingFile,
    /// The address-mapping file is no JSON object of strings.
    MappingParseError,
    /// A mapping entry holds no valid address literal.
    InvalidAddressLiteral { symbol: String, literal: String },
    /// The metadata file is present but no JSON document.
    MetadataParseError,
    /// A module file could not be read.
    ModuleFileUnreadable { path: String },
    /// A module file does not follow the module schema.
    ModuleParseError { path: String },
}

/// What reading one module file gave.
pub enum ModuleSource {
    Parsed(Module),
    Unreadable,
    Malformed,
}

/// A file of a package directory: its stem names the module.
pub struct ModuleFile {
    pub stem: String,
    pub path: String,
    pub source: ModuleSource,
}

/// A subdirectory of the summaries root: its name is a candidate package name.
pub struct PackageDir {
    pub name: String,
    pub modules: Vec<ModuleFile>,
}

/// What a summaries directory holds, as read from disk.
pub struct SummaryListing {
    pub root_is_dir: bool,
    /// The text of the address-mapping file, if there is one.
    pub address_mapping: Option<String>,
    /// The text of the metadata file, if there is one.
    pub metadata: Option<String>,
    pub packages: Vec<PackageDir>,
}

/// The entries of a JSON object whose values are all strings, or `None` for any other text.
pub uninterp spec fn json_string_map(text: Seq<char>) -> Option<Seq<(Seq<char>, Seq<char>)>>;

/// Whether the text is one JSON document.
pub uninterp spec fn json_well_formed(text: Seq<char>) -> bool;

pub open spec fn pairs_view(v: Seq<(String, String)>) -> Seq<(Seq<char>, Seq<char>)> {
    v.map_values(|p: (String, String)| (p.0@, p.1@))
}

/// Relies on `serde_json::from_str` into a `BTreeMap<String, String>`: the result
/// depends on the text alone, and the map holds each key once.
#[verifier::external_body]
fn parse_string_map(text: &str) -> (r: Option<Vec<(String, String)>>)
    ensures
        r is Some <==> json_string_map(text@) is Some,
        r is Some ==> pairs_view(r->0@) == json_string_map(text@)->0,
        r is Some ==> forall|i: int, j: int|
            0 <= i < j < r->0@.len() ==> (#[trigger] r->0@[i]).0@ != (#[trigger] r->0@[j]).0@,
{
    serde_json::from_str::<std::collections::BTreeMap<String, String>>(text).ok().map(
        |m| m.into_iter().collect(),
    )
}

/// Relies on `serde_json::from_str` into a `serde_json::Value`: whether it succeeds
/// depends on the text alone.
#[verifier::external_body]
fn is_json_document(text: &str) -> (r: bool)
    ensures
        r == json_well_formed(text@),
{
    serde_json::from_str::<serde_json::Value>(text).is_ok()
}

/// Entry `i` is the first whose literal is no address literal.
pub open spec fn first_invalid(entries: Seq<(Seq<char>, Seq<char>)>, i: int) -> bool {
    &&& 0 <= i < entries.len()
    &&& !is_address_literal(entries[i].1)
    &&& forall|j: int| 0 <= j < i ==> is_address_literal(#[trigger] entries[j].1)
}

pub open spec fn all_valid(entries: Seq<(Seq<char>, Seq<char>)>) -> bool {
    forall|i: int| 0 <= i < entries.len() ==> is_address_literal(#[trigger] entries[i].1)
}

/// Each symbol with the address that its literal denotes.
pub open spec fn resolved(entries: Seq<(Seq<char>, Seq<char>)>) -> Seq<(Seq<char>, Seq<u8>)> {
    entries.map_values(|e: (Seq<char>, Seq<char>)| (e.0, literal_bytes(e.1)))
}

pub open spec fn mapping_view(m: Seq<(String, Address)>) -> Seq<(Seq<char>, Seq<u8>)> {
    m.map_values(|e: (String, Address)| (e.0@, e.1@))
}

/// Parses every literal of a symbol-to-literal mapping, failing on the first invalid one.
pub fn resolve_addresses(entries: &Vec<(String, String)>) -> (r: Result<
    Vec<(String, Address)>,
    CatalogError,
>)
    ensures
        r is Ok <==> all_valid(pairs_view(entries@)),
        r is Ok ==> mapping_view(r->Ok_0@) == resolved(pairs_view(entries@)),
        r is Ok ==> forall|i: int| 0 <= i < r->Ok_0@.len() ==> (#[trigger] r->Ok_0@[i]).1.wf(),
        r is Err ==> exists|i: int|
            first_invalid(pairs_view(entries@), i) && r->Err_0 == (CatalogError::InvalidAddressLiteral {
                symbol: entries@[i].0,
                literal: entries@[i].1,
            }),
{
    let ghost pv = pairs_view(entries@);
    let mut out: Vec<(String, Address)> = Vec::new();
    let mut i: usize = 0;
    while i < entries.len()
        invariant
            pv == pairs_view(entries@),
            i <= entries@.len(),
            out@.len() == i,
            all_valid(pv.subrange(0, i as int)),
            mapping_view(out@) == resolved(pv.subrange(0, i as int)),
            forall|k: int| 0 <= k < out@.len() ==> (#[trigger] out@[k]).1.wf(),
        decreases entries@.len() - i,
    {
        match parse_address_literal(entries[i].1.as_str()) {
            Some(a) => {
                let ghost prev = out@;
                out.push((entries[i].0.clone(), a));
                proof {
                    let want = resolved(pv.subrange(0, i + 1));
                    assert forall|k: int| 0 <= k < i + 1 implies mapping_view(out@)[k] == want[k] by {
                        if k < i {
                            assert(mapping_view(prev)[k] == resolved(pv.subrange(0, i as int))[k]);
                        }
                    }
                    assert(mapping_view(out@) =~= want);
                    assert forall|k: int| 0 <= k < i + 1 implies is_address_literal(
                        #[trigger] pv.subrange(0, i + 1)[k].1,
                    ) by {
                        if k < i {
                            assert(pv.subrange(0, i + 1)[k] == pv.subrange(0, i as int)[k]);
                        }
                    }
                }
            },
            None => {
                proof {
                    assert forall|k: int| 0 <= k < i implies is_address_literal(
                        #[trigger] pv[k].1,
                    ) by {
                        assert(pv[k] == pv.subrange(0, i as int)[k]);
                    }
                    assert(first_invalid(pv, i as int));
                }
                return Err(
                    CatalogError::InvalidAddressLiteral {
                        symbol: entries[i].0.clone(),
                        literal: entries[i].1.clone(),
                    },
                );
            },
        }
        i = i + 1;
    }
    assert(pv.subrange(0, pv.len() as int) =~= pv);
    Ok(out)
}

/// `items` with `item` in place of the first item under its name, or appended.
pub open spec fn upsert<T>(items: Seq<Named<T>>, item: Named<T>) -> Seq<Named<T>> {
    if has_named(items, item.name@) {
        items.update(named_index(items, item.name@), item)
    } else {
        items.push(item)
    }
}

/// The modules of a package directory, keyed by file stem, or the first file's error.
pub open spec fn modules_of(files: Seq<ModuleFile>) -> Result<Seq<Named<Module>>, CatalogError>
    decreases files.len(),
{
    if files.len() == 0 {
        Ok(Seq::empty())
    } else {
        let f = files[files.len() - 1];
        match modules_of(files.subrange(0, files.len() - 1)) {
            Err(e) => Err(e),
            Ok(ms) => match f.source {
                ModuleSource::Parsed(m) => Ok(upsert(ms, Named { name: f.stem, value: m })),
                ModuleSource::Unreadable => Err(CatalogError::ModuleFileUnreadable { path: f.path }),
                ModuleSource::Malformed => Err(CatalogError::ModuleParseError { path: f.path }),
            },
        }
    }
}

/// Entry `i` is the first that maps `name`.
pub open spec fn first_mapped(m: Seq<(Seq<char>, Seq<u8>)>, name: Seq<char>, i: int) -> bool {
    &&& 0 <= i < m.len()
    &&& m[i].0 == name
    &&& forall|j: int| 0 <= j < i ==> (#[trigger] m[j]).0 != name
}

pub open spec fn maps_name(m: Seq<(Seq<char>, Seq<u8>)>, name: Seq<char>) -> bool {
    exists|i: int| 0 <= i < m.len() && (#[trigger] m[i]).0 == name
}

/// The address that the mapping gives `name`.
pub open spec fn address_for(m: Seq<(Seq<char>, Seq<u8>)>, name: Seq<char>) -> Seq<u8> {
    m[choose|i: int| first_mapped(m, name, i)].1
}

/// A package as the catalog holds it: display name and modules.
pub open spec fn package_view(p: Package) -> (Option<String>, Seq<Named<Module>>) {
    (p.name, p.modules@)
}

/// The catalog as a map from address to package view.
pub open spec fn catalog_view(es: Seq<crate::catalog::PackageEntry>) -> Map<Seq<u8>, (Option<String>, Seq<Named<Module>>)> {
    catalog_map(es).map_values(|p: Package| package_view(p))
}

/// The catalog that the package directories give under mapping `m`, in directory
/// order, later directories replacing earlier ones at the same address; or the
/// first error.
pub open spec fn packages_of(m: Seq<(Seq<char>, Seq<u8>)>, dirs: Seq<PackageDir>) -> Result<
    Map<Seq<u8>, (Option<String>, Seq<Named<Module>>)>,
    CatalogError,
>
    decreases dirs.len(),
{
    if dirs.len() == 0 {
        Ok(Map::empty())
    } else {
        let d = dirs[dirs.len() - 1];
        match packages_of(m, dirs.subrange(0, dirs.len() - 1)) {
            Err(e) => Err(e),
            Ok(c) => if !maps_name(m, d.name@) {
                Ok(c)
            } else {
                match modules_of(d.modules@) {
                    Err(e) => Err(e),
                    Ok(ms) => Ok(c.insert(address_for(m, d.name@), (Some(d.name), ms))),
                }
            },
        }
    }
}

/// The names of the directories that the mapping leaves out, in directory order.
pub open spec fn skipped_of(m: Seq<(Seq<char>, Seq<u8>)>, dirs: Seq<PackageDir>) -> Seq<Seq<char>>
    decreases dirs.len(),
{
    if dirs.len() == 0 {
        Seq::empty()
    } else {
        let d = dirs[dirs.len() - 1];
        skipped_of(m, dirs.subrange(0, dirs.len() - 1)) + if maps_name(m, d.name@) {
            Seq::empty()
        } else {
            seq![d.name@]
        }
    }
}

fn upsert_named<T>(items: &mut Vec<Named<T>>, item: Named<T>)
    ensures
        final(items)@ == upsert(old(items)@, item),
{
    let ghost before = old(items)@;
    match find_named(items, item.name.as_str()) {
        Some(j) => {
            let ghost it = item;
            items.remove(j);
            items.insert(j, item);
            assert(items@ =~= before.update(j as int, it));
        },
        None => {
            items.push(item);
        },
    }
}

/// Collects the modules of one package directory, failing on the first file that
/// could not be read or parsed.
#[verifier::loop_isolation(false)]
pub fn collect_modules(files: Vec<ModuleFile>) -> (r: Result<Vec<Named<Module>>, CatalogError>)
    ensures
        r is Ok <==> modules_of(files@) is Ok,
        r is Ok ==> r->Ok_0@ == modules_of(files@)->Ok_0,
        r is Err ==> r->Err_0 == modules_of(files@)->Err_0,
{
    let ghost all = files@;
    let mut files = files;
    let mut out: Vec<Named<Module>> = Vec::new();
    let ghost mut k: int = 0;
    while files.len() > 0
        invariant
            0 <= k <= all.len(),
            files@ == all.subrange(k, all.len() as int),
            modules_of(all.subrange(0, k)) is Ok,
            out@ == modules_of(all.subrange(0, k))->Ok_0,
        decreases files@.len(),
    {
        let f = files.remove(0);
        proof {
            assert(f == all[k]);
            let next = all.subrange(0, k + 1);
            assert(next.subrange(0, k) =~= all.subrange(0, k));
            assert(next[k] == all[k]);
        }
        let ModuleFile { stem, path, source } = f;
        match source {
            ModuleSource::Parsed(m) => {
                upsert_named(&mut out, Named { name: stem, value: m });
            },
            ModuleSource::Unreadable => {
                proof {
                    let next = all.subrange(0, k + 1);
                    assert(next.subrange(0, k) =~= all.subrange(0, k));
                    assert(all[k].source is Unreadable);
                    assert(modules_of(next) == Err::<Seq<Named<Module>>, CatalogError>(
                        CatalogError::ModuleFileUnreadable { path: all[k].path },
                    ));
                    lemma_modules_error_stays(all, k + 1);
                }
                return Err(CatalogError::ModuleFileUnreadable { path });
            },
            ModuleSource::Malformed => {
                proof {
                    let next = all.subrange(0, k + 1);
                    assert(next.subrange(0, k) =~= all.subrange(0, k));
                    assert(all[k].source is Malformed);
                    assert(modules_of(next) == Err::<Seq<Named<Module>>, CatalogError>(
                        CatalogError::ModuleParseError { path: all[k].path },
                    ));
                    lemma_modules_error_stays(all, k + 1);
                }
                return Err(CatalogError::ModuleParseError { path });
            },
        }
        proof {
            k = k + 1;
            assert(files@ =~= all.subrange(k, all.len() as int));
        }
    }
    assert(all.subrange(0, k) =~= all);
    Ok(out)
}

/// Once a prefix of the files fails, every longer prefix fails alike.
proof fn lemma_modules_error_stays(files: Seq<ModuleFile>, k: int)
    requires
        0 <= k <= files.len(),
        modules_of(files.subrange(0, k)) is Err,
    ensures
        modules_of(files) == modules_of(files.subrange(0, k)),
    decreases files.len() - k,
{
    if k < files.len() {
        let next = files.subrange(0, k + 1);
        assert(next.subrange(0, k) =~= files.subrange(0, k));
        lemma_modules_error_stays(files, k + 1);
    } else {
        assert(files.subrange(0, k) =~= files);
    }
}

/// Once a prefix of the directories fails, every longer prefix fails alike.
proof fn lemma_packages_error_stays(m: Seq<(Seq<char>, Seq<u8>)>, dirs: Seq<PackageDir>, k: int)
    requires
        0 <= k <= dirs.len(),
        packages_of(m, dirs.subrange(0, k)) is Err,
    ensures
        packages_of(m, dirs) == packages_of(m, dirs.subrange(0, k)),
    decreases dirs.len() - k,
{
    if k < dirs.len() {
        let next = dirs.subrange(0, k + 1);
        assert(next.subrange(0, k) =~= dirs.subrange(0, k));
        lemma_packages_error_stays(m, dirs, k + 1);
    } else {
        assert(dirs.subrange(0, k) =~= dirs);
    }
}

/// The address that `mapping` gives `name`, if any.
#[verifier::loop_isolation(false)]
fn lookup_address(mapping: &Vec<(String, Address)>, name: &String) -> (r: Option<Address>)
    requires
        forall|i: int| 0 <= i < mapping@.len() ==> (#[trigger] mapping@[i]).1.wf(),
    ensures
        r is None <==> !maps_name(mapping_view(mapping@), name@),
        r is Some ==> r->0.wf() && r->0@ == address_for(mapping_view(mapping@), name@),
{
    let ghost mv = mapping_view(mapping@);
    let mut i: usize = 0;
    while i < mapping.len()
        invariant
            mv == mapping_view(mapping@),
            i <= mapping@.len(),
            forall|j: int| 0 <= j < i ==> (#[trigger] mv[j]).0 != name@,
        decreases mapping@.len() - i,
    {
        if mapping[i].0 == *name {
            proof {
                assert(first_mapped(mv, name@, i as int));
                let k = choose|k: int| first_mapped(mv, name@, k);
                assert(k == i) by {
                    if k < i {
                        assert(mv[k].0 != name@);
                    } else if k > i {
                        assert(mv[i as int].0 != name@);
                    }
                }
                assert(address_for(mv, name@) == mapping@[i as int].1@);
            }
            return Some(mapping[i].1.duplicate());
        }
        i = i + 1;
    }
    None
}

/// Assembles the catalog from the package directories under a resolved mapping:
/// directories that the mapping leaves out are skipped and reported.
#[verifier::loop_isolation(false)]
pub fn assemble_packages(mapping: &Vec<(String, Address)>, dirs: Vec<PackageDir>) -> (r: Result<
    (PackageTree, Vec<String>),
    CatalogError,
>)
    requires
        forall|i: int| 0 <= i < mapping@.len() ==> (#[trigger] mapping@[i]).1.wf(),
    ensures
        r is Ok <==> packages_of(mapping_view(mapping@), dirs@) is Ok,
        r is Ok ==> r->Ok_0.0.wf(),
        r is Ok ==> catalog_view(r->Ok_0.0@) == packages_of(mapping_view(mapping@), dirs@)->Ok_0,
        r is Ok ==> crate::catalog::string_views(r->Ok_0.1@) == skipped_of(mapping_view(mapping@), dirs@),
        r is Err ==> r->Err_0 == packages_of(mapping_view(mapping@), dirs@)->Err_0,
{
    let ghost all = dirs@;
    let ghost mv = mapping_view(mapping@);
    let mut dirs = dirs;
    let mut tree = PackageTree::empty();
    let mut skipped: Vec<String> = Vec::new();
    let ghost mut k: int = 0;
    proof {
        assert(catalog_view(tree@) =~= Map::empty());
    }
    while dirs.len() > 0
        invariant
            mv == mapping_view(mapping@),
            forall|i: int| 0 <= i < mapping@.len() ==> (#[trigger] mapping@[i]).1.wf(),
            0 <= k <= all.len(),
            dirs@ == all.subrange(k, all.len() as int),
            tree.wf(),
            packages_of(mv, all.subrange(0, k)) is Ok,
            catalog_view(tree@) == packages_of(mv, all.subrange(0, k))->Ok_0,
            crate::catalog::string_views(skipped@) == skipped_of(mv, all.subrange(0, k)),
        decreases dirs@.len(),
    {
        let d = dirs.remove(0);
        proof {
            assert(d == all[k]);
            let next = all.subrange(0, k + 1);
            assert(next.subrange(0, k) =~= all.subrange(0, k));
            assert(next[k] == all[k]);
        }
        let PackageDir { name, modules } = d;
        match lookup_address(mapping, &name) {
            None => {
                let ghost prev = skipped@;
                skipped.push(name);
                proof {
                    assert(crate::catalog::string_views(skipped@) =~= crate::catalog::string_views(prev) + seq![all[k].name@]);
                }
            },
            Some(address) => {
                match collect_modules(modules) {
                    Ok(ms) => {
                        let ghost before = tree@;
                        let ghost pkg = Package { name: Some(name), modules: ms };
                        tree.insert(address, Package { name: Some(name), modules: ms });
                        proof {
                            assert(catalog_view(tree@) =~= catalog_view(before).insert(address@, package_view(pkg)));
                        }
                    },
                    Err(e) => {
                        proof {
                            let next = all.subrange(0, k + 1);
                            assert(next.subrange(0, k) =~= all.subrange(0, k));
                            assert(maps_name(mv, all[k].name@));
                            assert(modules_of(all[k].modules@) is Err);
                            assert(packages_of(mv, next) is Err);
                            lemma_packages_error_stays(mv, all, k + 1);
                        }
                        return Err(e);
                    },
                }
            },
        }
        proof {
            k = k + 1;
            assert(dirs@ =~= all.subrange(k, all.len() as int));
        }
    }
    assert(all.subrange(0, k) =~= all);
    Ok((tree, skipped))
}

/// Whether `e` is the error that ingesting the listing gives.
pub open spec fn ingest_error(l: SummaryListing, e: CatalogError) -> bool {
    if !l.root_is_dir {
        e is InvalidRootPath
    } else if l.address_mapping is None {
        e is MissingMappingFile
    } else {
        let parsed = json_string_map(l.address_mapping->0@);
        if parsed is None {
            e is MappingParseError
        } else if !all_valid(parsed->0) {
            exists|i: int|
                first_invalid(parsed->0, i) && (e matches CatalogError::InvalidAddressLiteral {
                    symbol,
                    literal,
                } && symbol@ == parsed->0[i].0 && literal@ == parsed->0[i].1)
        } else if l.metadata is Some && !json_well_formed(l.metadata->0@) {
            e is MetadataParseError
        } else {
            packages_of(resolved(parsed->0), l.packages@) is Err && e == packages_of(
                resolved(parsed->0),
                l.packages@,
            )->Err_0
        }
    }
}

/// Whether ingesting the listing gets as far as assembling the packages.
pub open spec fn ingest_reaches_packages(l: SummaryListing) -> bool {
    &&& l.root_is_dir
    &&& l.address_mapping is Some
    &&& json_string_map(l.address_mapping->0@) is Some
    &&& all_valid(json_string_map(l.address_mapping->0@)->0)
    &&& !(l.metadata is Some && !json_well_formed(l.metadata->0@))
}

/// The mapping that ingesting the listing resolves.
pub open spec fn ingest_mapping(l: SummaryListing) -> Seq<(Seq<char>, Seq<u8>)> {
    resolved(json_string_map(l.address_mapping->0@)->0)
}

/// The catalog that ingesting the listing builds, if it succeeds.
pub open spec fn ingest_catalog(l: SummaryListing) -> Option<Map<Seq<u8>, (Option<String>, Seq<Named<Module>>)>> {
    if ingest_reaches_packages(l) && packages_of(ingest_mapping(l), l.packages@) is Ok {
        Some(packages_of(ingest_mapping(l), l.packages@)->Ok_0)
    } else {
        None
    }
}

/// Ingests a summaries listing: checks the root, resolves the address mapping,
/// checks the metadata and assembles the catalog. Also returns the names of the
/// package directories that the mapping leaves out.
pub fn parse_summaries(listing: SummaryListing) -> (r: Result<(PackageTree, Vec<String>), CatalogError>)
    ensures
        r is Ok <==> ingest_catalog(listing) is Some,
        r is Ok ==> r->Ok_0.0.wf() && catalog_view(r->Ok_0.0@) == ingest_catalog(listing)->0,
        r is Ok ==> crate::catalog::string_views(r->Ok_0.1@) == skipped_of(
            ingest_mapping(listing),
            listing.packages@,
        ),
        r is Err ==> ingest_error(listing, r->Err_0),
{
    let ghost l = listing;
    let SummaryListing { root_is_dir, address_mapping, metadata, packages } = listing;
    if !root_is_dir {
        return Err(CatalogError::InvalidRootPath);
    }
    let text = match address_mapping {
        Some(t) => t,
        None => {
            return Err(CatalogError::MissingMappingFile);
        },
    };
    let entries = match parse_string_map(text.as_str()) {
        Some(es) => es,
        None => {
            return Err(CatalogError::MappingParseError);
        },
    };
    let mapping = match resolve_addresses(&entries) {
        Ok(m) => m,
        Err(e) => {
            proof {
                let i = choose|i: int|
                    first_invalid(pairs_view(entries@), i) && e == (CatalogError::InvalidAddressLiteral {
                        symbol: entries@[i].0,
                        literal: entries@[i].1,
                    });
                assert(pairs_view(entries@)[i] == (entries@[i].0@, entries@[i].1@));
                assert(!all_valid(pairs_view(entries@)));
            }
            return Err(e);
        },
    };
    match &metadata {
        Some(m) => {
            if !is_json_document(m.as_str()) {
                return Err(CatalogError::MetadataParseError);
            }
        },
        None => {},
    }
    assemble_packages(&mapping, packages)
}

impl PackageTree {
    /// Builds the catalog from a summaries listing.
    pub fn new(listing: SummaryListing) -> (r: Result<PackageTree, CatalogError>)
        ensures
            r is Ok <==> ingest_catalog(listing) is Some,
            r is Ok ==> r->Ok_0.wf() && catalog_view(r->Ok_0@) == ingest_catalog(listing)->0,
            r is Err ==> ingest_error(listing, r->Err_0),
    {
        match parse_summaries(listing) {
            Ok((tree, _skipped)) => Ok(tree),
            Err(e) => Err(e),
        }
    }
}

} // verus!
