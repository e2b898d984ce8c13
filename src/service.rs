use vstd::prelude::*;
use crate::catalog::{
    has_package, lookup_module, lookup_named, package_index, string_views, Definition, Module,
    Named, PackageTree, QueryError,
};

verus! {

/// Names a package.
pub struct ListModulesRequest {
    pub package: String,
}

/// Names a module of a package.
pub struct ModuleRequest {
    pub package: String,
    pub module: String,
}

/// Names a function, struct or enum of a module.
pub struct DefinitionRequest {
    pub package: String,
    pub module: String,
    pub definition: String,
}

/// The definition names of a module, by kind.
pub struct ModuleSummary {
    pub functions: Vec<String>,
    pub structs: Vec<String>,
    pub enums: Vec<String>,
}

pub open spec fn item_names<T>(items: Seq<Named<T>>) -> Seq<Seq<char>> {
    items.map_values(|n: Named<T>| n.name@)
}

fn names_of<T>(items: &Vec<Named<T>>) -> (r: Vec<String>)
    ensures
        string_views(r@) == item_names(items@),
{
    let mut r: Vec<String> = Vec::new();
    let mut i: usize = 0;
    while i < items.len()
        invariant
            i <= items@.len(),
            r@.len() == i,
            string_views(r@) == item_names(items@.subrange(0, i as int)),
        decreases items@.len() - i,
    {
        let ghost prev = r@;
        let name = items[i].name.clone();
        r.push(name);
        proof {
            let want = item_names(items@.subrange(0, i + 1));
            assert forall|k: int| 0 <= k < i + 1 implies string_views(r@)[k] == want[k] by {
                if k < i {
                    assert(string_views(prev)[k] == item_names(items@.subrange(0, i as int))[k]);
                }
            }
            assert(string_views(r@) =~= want);
        }
        i = i + 1;
    }
    assert(items@.subrange(0, items@.len() as int) =~= items@);
    r
}

/// Answers the read-only tool requests from one catalog.
pub struct SuiService {
    pub packages: PackageTree,
}

impl SuiService {
    pub fn new(packages: PackageTree) -> (r: SuiService)
        ensures
            r.packages == packages,
    {
        SuiService { packages }
    }

    /// The display names of the packages.
    pub fn list_packages(&self) -> (r: Vec<String>)
        ensures
            string_views(r@) == crate::catalog::package_names(self.packages@),
    {
        self.packages.list_packages()
    }

    /// The module names of the requested package.
    pub fn list_modules(&self, req: &ListModulesRequest) -> (r: Result<Vec<String>, QueryError>)
        ensures
            r is Err <==> !has_package(self.packages@, req.package@),
            r is Err ==> r->Err_0 == QueryError::PackageNotFound,
            r is Ok ==> string_views(r->Ok_0@) == crate::catalog::module_names(
                self.packages@[package_index(self.packages@, req.package@)].package.modules@,
            ),
    {
        self.packages.list_modules(req.package.as_str())
    }

    /// The function, struct and enum names of the requested module.
    pub fn read_module(&self, req: &ModuleRequest) -> (r: Result<ModuleSummary, QueryError>)
        ensures
            r is Ok <==> lookup_module(self.packages@, req.package@, req.module@) is Some,
            r is Ok ==> {
                let m = lookup_module(self.packages@, req.package@, req.module@)->0;
                &&& string_views(r->Ok_0.functions@) == item_names(m.functions@)
                &&& string_views(r->Ok_0.structs@) == item_names(m.structs@)
                &&& string_views(r->Ok_0.enums@) == item_names(m.enums@)
            },
            r is Err ==> r->Err_0 == if has_package(self.packages@, req.package@) {
                QueryError::ModuleNotFound
            } else {
                QueryError::PackageNotFound
            },
    {
        let m: &Module = match self.packages.get_module(req.package.as_str(), req.module.as_str()) {
            Ok(m) => m,
            Err(e) => {
                return Err(e);
            },
        };
        Ok(
            ModuleSummary {
                functions: names_of(&m.functions),
                structs: names_of(&m.structs),
                enums: names_of(&m.enums),
            },
        )
    }

    /// The requested definition: a function if there is one under the name, else a
    /// struct, else an enum.
    pub fn read_module_definition(&self, req: &DefinitionRequest) -> (r: Result<Definition<'_>, QueryError>)
        ensures
            lookup_module(self.packages@, req.package@, req.module@) is None ==> r is Err,
            lookup_module(self.packages@, req.package@, req.module@) matches Some(m) ==> {
                let f = lookup_named(m.functions@, req.definition@);
                let s = lookup_named(m.structs@, req.definition@);
                let e = lookup_named(m.enums@, req.definition@);
                &&& f is Some ==> r is Ok && r->Ok_0 is Function && *r->Ok_0->Function_0 == f->0
                &&& f is None && s is Some ==> r is Ok && r->Ok_0 is Struct && *r->Ok_0->Struct_0 == s->0
                &&& f is None && s is None && e is Some ==> r is Ok && r->Ok_0 is Enum
                    && *r->Ok_0->Enum_0 == e->0
                &&& f is None && s is None && e is None ==> r is Err && r->Err_0
                    == QueryError::DefinitionNotFound
            },
    {
        self.packages.get_definition(
            req.package.as_str(),
            req.module.as_str(),
            req.definition.as_str(),
        )
    }
}

} // verus!
