//! Pack manifests: header, modules, subpacks and dependencies.
use vstd::prelude::*;

verus! {

/// A pack version triple, with an optional type tag.
#[derive(Debug)]
pub struct Version {
    pub version_type: Option<i32>,
    pub version: i32,
    pub minor_version: i32,
}

/// The identifying header of a manifest.
#[derive(Debug)]
pub struct Header {
    pub description: String,
    pub name: String,
    pub uuid: String,
    pub version: Version,
}

#[derive(Debug, Clone, Copy, PartialEq, Eq, Structural)]
pub enum ModuleType {
    Resources,
    Data,
    ClientData,
}

/// One module of a pack.
#[derive(Debug)]
pub struct Module {
    pub description: String,
    pub module_type: ModuleType,
    pub uuid: String,
    pub version: Version,
}

/// One subpack of a pack.
#[derive(Debug)]
pub struct Subpack {
    pub folder_name: String,
    pub name: String,
    pub memory_tier: i32,
}

/// One dependency of a pack.
#[derive(Debug)]
pub struct Dependency {
    pub uuid: String,
    pub version: Version,
}

/// A pack manifest; the module, subpack and dependency lists are absent
/// until the first addition.
#[derive(Debug)]
pub struct Manifest {
    pub format_version: i32,
    pub header: Header,
    modules: Option<Vec<Module>>,
    subpacks: Option<Vec<Subpack>>,
    dependencies: Option<Vec<Dependency>>,
}

impl Manifest {
    pub closed spec fn spec_format_version(&self) -> i32 {
        self.format_version
    }

    pub closed spec fn spec_header(&self) -> Header {
        self.header
    }

    /// The modules added so far, absent before the first.
    pub closed spec fn spec_modules(&self) -> Option<Seq<Module>> {
        match self.modules {
            Some(ref v) => Some(v@),
            None => None,
        }
    }

    pub closed spec fn spec_subpacks(&self) -> Option<Seq<Subpack>> {
        match self.subpacks {
            Some(ref v) => Some(v@),
            None => None,
        }
    }

    pub closed spec fn spec_dependencies(&self) -> Option<Seq<Dependency>> {
        match self.dependencies {
            Some(ref v) => Some(v@),
            None => None,
        }
    }

    /// Builds a manifest with no module, subpack or dependency lists.
    pub fn new(format_version: i32, header: Header) -> (r: Manifest)
        ensures
            r.spec_format_version() == format_version,
            r.spec_header() == header,
            r.spec_modules() is None,
            r.spec_subpacks() is None,
            r.spec_dependencies() is None,
    {
        Manifest { format_version, header, modules: None, subpacks: None, dependencies: None }
    }

    /// Appends a module, creating the list on first use.
    pub fn add_module(&mut self, module: Module)
        ensures
            final(self).spec_modules() == Some(
                match old(self).spec_modules() {
                    Some(ms) => ms.push(module),
                    None => seq![module],
                },
            ),
            final(self).spec_subpacks() == old(self).spec_subpacks(),
            final(self).spec_dependencies() == old(self).spec_dependencies(),
            final(self).spec_format_version() == old(self).spec_format_version(),
            final(self).spec_header() == old(self).spec_header(),
    {
        match &mut self.modules {
            Some(modules) => {
                modules.push(module);
            },
            None => {
                let mut v: Vec<Module> = Vec::new();
                v.push(module);
                proof {
                    assert(v@ =~= seq![module]);
                }
                self.modules = Some(v);
            },
        }
    }

    /// Appends a subpack, creating the list on first use.
    pub fn add_subpack(&mut self, subpack: Subpack)
        ensures
            final(self).spec_subpacks() == Some(
                match old(self).spec_subpacks() {
                    Some(ms) => ms.push(subpack),
                    None => seq![subpack],
                },
            ),
            final(self).spec_modules() == old(self).spec_modules(),
            final(self).spec_dependencies() == old(self).spec_dependencies(),
            final(self).spec_format_version() == old(self).spec_format_version(),
            final(self).spec_header() == old(self).spec_header(),
    {
        match &mut self.subpacks {
            Some(subpacks) => {
                subpacks.push(subpack);
            },
            None => {
                let mut v: Vec<Subpack> = Vec::new();
                v.push(subpack);
                proof {
                    assert(v@ =~= seq![subpack]);
                }
                self.subpacks = Some(v);
            },
        }
    }

    /// Appends a dependency, creating the list on first use.
    pub fn add_dependency(&mut self, dependency: Dependency)
        ensures
            final(self).spec_dependencies() == Some(
                match old(self).spec_dependencies() {
                    Some(ms) => ms.push(dependency),
                    None => seq![dependency],
                },
            ),
            final(self).spec_modules() == old(self).spec_modules(),
            final(self).spec_subpacks() == old(self).spec_subpacks(),
            final(self).spec_format_version() == old(self).spec_format_version(),
            final(self).spec_header() == old(self).spec_header(),
    {
        match &mut self.dependencies {
            Some(dependencies) => {
                dependencies.push(dependency);
            },
            None => {
                let mut v: Vec<Dependency> = Vec::new();
                v.push(dependency);
                proof {
                    assert(v@ =~= seq![dependency]);
                }
                self.dependencies = Some(v);
            },
        }
    }

    /// The module list, if any has been added.
    pub fn get_modules(&self) -> (r: Option<&Vec<Module>>)
        ensures
            match r {
                Some(v) => self.spec_modules() == Some(v@),
                None => self.spec_modules() is None,
            },
    {
        self.modules.as_ref()
    }

    /// The subpack list, if any has been added.
    pub fn get_subpack(&self) -> (r: Option<&Vec<Subpack>>)
        ensures
            match r {
                Some(v) => self.spec_subpacks() == Some(v@),
                None => self.spec_subpacks() is None,
            },
    {
        self.subpacks.as_ref()
    }

    /// The dependency list, if any has been added.
    pub fn get_dependency(&self) -> (r: Option<&Vec<Dependency>>)
        ensures
            match r {
                Some(v) => self.spec_dependencies() == Some(v@),
                None => self.spec_dependencies() is None,
            },
    {
        self.dependencies.as_ref()
    }
}

} // verus!
