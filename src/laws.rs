use vstd::prelude::*;
use crate::address::{canonical_literal, is_address_literal, lemma_literal_round_trip, literal_bytes};
use crate::catalog::{
    ascending, catalog_map, has_address, has_named, lemma_lt_ne, lemma_map_at, module_names,
    package_names, Module, Named, PackageEntry, PackageTree,
};
use crate::parser::{
    all_valid, catalog_view, ingest_catalog, ingest_mapping, maps_name, modules_of, packages_of,
    resolved, upsert, ModuleFile, PackageDir, SummaryListing,
};
use crate::model::Type;
use crate::render::type_text;

verus! {

/// Resolving a mapping whose literals are all valid keeps one entry per entry of
/// the mapping, under the same symbols, and every resolved address parses back
/// from its canonical literal.
pub proof fn law_resolved_mapping(entries: Seq<(Seq<char>, Seq<char>)>)
    requires
        all_valid(entries),
    ensures
        resolved(entries).len() == entries.len(),
        forall|i: int|
            0 <= i < entries.len() ==> {
                let a = (#[trigger] resolved(entries)[i]).1;
                &&& resolved(entries)[i].0 == entries[i].0
                &&& is_address_literal(canonical_literal(a))
                &&& literal_bytes(canonical_literal(a)) == a
            },
{
    assert forall|i: int| 0 <= i < entries.len() implies {
        let a = (#[trigger] resolved(entries)[i]).1;
        &&& resolved(entries)[i].0 == entries[i].0
        &&& is_address_literal(canonical_literal(a))
        &&& literal_bytes(canonical_literal(a)) == a
    } by {
        lemma_literal_round_trip(literal_bytes(entries[i].1));
    }
}

/// Rendering is a function of the type alone: equal types give equal text.
pub proof fn law_render_deterministic(t1: Type, t2: Type)
    requires
        t1 == t2,
    ensures
        type_text(t1) == type_text(t2),
{
}

/// A package directory of `m` module files that all parsed, with distinct stems.
pub open spec fn clean_dir(d: PackageDir, m: nat) -> bool {
    &&& d.modules@.len() == m
    &&& forall|i: int| 0 <= i < d.modules@.len() ==> (#[trigger] d.modules@[i]).source is Parsed
    &&& forall|i: int, j: int|
        0 <= i < j < d.modules@.len() ==> (#[trigger] d.modules@[i]).stem@ != (#[trigger] d.modules@[j]).stem@
}

proof fn lemma_package_names_len(es: Seq<PackageEntry>)
    ensures
        package_names(es).len() <= es.len(),
    decreases es.len(),
{
    if es.len() > 0 {
        lemma_package_names_len(es.subrange(0, es.len() - 1));
    }
}

/// Files that all parsed, with distinct stems, give one module each.
proof fn lemma_modules_count(files: Seq<ModuleFile>)
    requires
        forall|i: int| 0 <= i < files.len() ==> (#[trigger] files[i]).source is Parsed,
        forall|i: int, j: int|
            0 <= i < j < files.len() ==> (#[trigger] files[i]).stem@ != (#[trigger] files[j]).stem@,
    ensures
        modules_of(files) is Ok,
        modules_of(files)->Ok_0.len() == files.len(),
        forall|k: int|
            0 <= k < files.len() ==> (#[trigger] modules_of(files)->Ok_0[k]).name@ == files[k].stem@,
    decreases files.len(),
{
    if files.len() > 0 {
        let n = files.len() - 1;
        let pre = files.subrange(0, n);
        assert forall|i: int, j: int| 0 <= i < j < pre.len() implies (#[trigger] pre[i]).stem@ != (
        #[trigger] pre[j]).stem@ by {
            assert(pre[i] == files[i] && pre[j] == files[j]);
        }
        assert forall|i: int| 0 <= i < pre.len() implies (#[trigger] pre[i]).source is Parsed by {
            assert(pre[i] == files[i]);
        }
        lemma_modules_count(pre);
        let ms = modules_of(pre)->Ok_0;
        let f = files[n];
        assert(f.source is Parsed);
        if has_named(ms, f.stem@) {
            let k = choose|k: int| 0 <= k < ms.len() && (#[trigger] ms[k]).name@ == f.stem@;
            assert(ms[k].name@ == files[k].stem@);
            assert(false);
        }
        let item = Named { name: f.stem, value: f.source->Parsed_0 };
        assert(modules_of(files) == Ok::<Seq<Named<Module>>, crate::parser::CatalogError>(
            upsert(ms, item),
        ));
    }
}

/// Under a mapping that maps every directory, clean directories of `m` files give a
/// catalog of at most one package per directory, each with `m` modules.
proof fn lemma_packages_count(mp: Seq<(Seq<char>, Seq<u8>)>, dirs: Seq<PackageDir>, m: nat)
    requires
        packages_of(mp, dirs) is Ok,
        forall|i: int| 0 <= i < dirs.len() ==> clean_dir(#[trigger] dirs[i], m),
    ensures
        packages_of(mp, dirs)->Ok_0.dom().finite(),
        packages_of(mp, dirs)->Ok_0.dom().len() <= dirs.len(),
        forall|a: Seq<u8>|
            #[trigger] packages_of(mp, dirs)->Ok_0.contains_key(a) ==> packages_of(mp, dirs)->Ok_0[a].1.len()
                == m,
    decreases dirs.len(),
{
    broadcast use vstd::set::group_set_axioms;

    if dirs.len() == 0 {
        assert(packages_of(mp, dirs)->Ok_0.dom() =~= Set::empty());
    } else {
        let n = dirs.len() - 1;
        let pre = dirs.subrange(0, n);
        assert forall|i: int| 0 <= i < pre.len() implies clean_dir(#[trigger] pre[i], m) by {
            assert(pre[i] == dirs[i]);
        }
        lemma_packages_count(mp, pre, m);
        let d = dirs[n];
        assert(clean_dir(d, m));
        if maps_name(mp, d.name@) {
            lemma_modules_count(d.modules@);
            let c = packages_of(mp, pre)->Ok_0;
            assert(c.insert(crate::parser::address_for(mp, d.name@), (Some(d.name), modules_of(d.modules@)->Ok_0)).dom()
                =~= c.dom().insert(crate::parser::address_for(mp, d.name@)));
        }
    }
}

/// In an ascending catalog there is one entry per address of the map.
proof fn lemma_entries_count(es: Seq<PackageEntry>)
    requires
        ascending(es),
    ensures
        catalog_map(es).dom().len() == es.len(),
{
    let addrs = es.map_values(|e: PackageEntry| e.address@);
    assert forall|i: int, j: int| 0 <= i < addrs.len() && 0 <= j < addrs.len() && i != j implies addrs[i]
        != addrs[j] by {
        if i < j {
            lemma_lt_ne(es[i].address@, es[j].address@);
        } else {
            lemma_lt_ne(es[j].address@, es[i].address@);
        }
    }
    assert(addrs.no_duplicates());
    addrs.unique_seq_to_set();
    assert forall|a: Seq<u8>| catalog_map(es).dom().contains(a) <==> addrs.to_set().contains(a) by {
        if has_address(es, a) {
            let i = choose|i: int| 0 <= i < es.len() && (#[trigger] es[i]).address@ == a;
            assert(addrs[i] == a);
        }
        if addrs.to_set().contains(a) {
            let i = choose|i: int| 0 <= i < addrs.len() && addrs[i] == a;
            assert(es[i].address@ == a);
        }
    }
    assert(catalog_map(es).dom() =~= addrs.to_set());
}

/// A catalog ingested from directories that the mapping all maps, each holding `m`
/// module files that parse and have distinct stems, lists at most one package name
/// per directory, and `m` module names for each package.
pub proof fn law_catalog_counts(l: SummaryListing, t: PackageTree, m: nat)
    requires
        ingest_catalog(l) is Some,
        t.wf(),
        catalog_view(t@) == ingest_catalog(l)->0,
        forall|i: int| 0 <= i < l.packages@.len() ==> maps_name(ingest_mapping(l), #[trigger] l.packages@[i].name@),
        forall|i: int| 0 <= i < l.packages@.len() ==> clean_dir(#[trigger] l.packages@[i], m),
    ensures
        package_names(t@).len() <= l.packages@.len(),
        forall|i: int| 0 <= i < t@.len() ==> (#[trigger] module_names(t@[i].package.modules@)).len() == m,
{
    let mp = ingest_mapping(l);
    lemma_packages_count(mp, l.packages@, m);
    lemma_entries_count(t@);
    assert(catalog_view(t@).dom() =~= catalog_map(t@).dom());
    lemma_package_names_len(t@);
    assert forall|i: int| 0 <= i < t@.len() implies (#[trigger] module_names(t@[i].package.modules@)).len() == m by {
        lemma_map_at(t@, i);
        let a = t@[i].address@;
        assert(catalog_view(t@)[a] == (t@[i].package.name, t@[i].package.modules@));
    }
}

} // verus!
