//! Signature tables of packages: for each function of each module, how it
//! takes each of its parameters.

use vstd::prelude::*;
use crate::ident::{ObjectId, ObjectRef};

verus! {

/// How a function takes one parameter.
#[derive(Clone, Copy, Debug, PartialEq, Eq, Structural)]
pub enum ParameterKind {
    /// By value, and not a struct.
    Value,
    /// By immutable reference.
    Reference,
    /// By mutable reference.
    MutableReference,
    /// A struct by value.
    Struct,
}

impl ParameterKind {
    /// Whether an object passed for such a parameter may be changed or
    /// consumed by the call.
    pub open spec fn needs_mutable_access(self) -> bool {
        self is MutableReference || self is Struct
    }

    /// Computes [`Self::needs_mutable_access`].
    pub fn takes_mutably(self) -> (mutable: bool)
        ensures
            mutable == self.needs_mutable_access(),
    {
        match self {
            ParameterKind::MutableReference => true,
            ParameterKind::Struct => true,
            ParameterKind::Value => false,
            ParameterKind::Reference => false,
        }
    }
}

/// The parameters of one function.
#[derive(Clone, Debug, PartialEq, Eq)]
pub struct NormalizedFunction {
    pub name: String,
    pub parameters: Vec<ParameterKind>,
}

/// Whether no two of `functions` share a name.
pub open spec fn distinct_function_names(functions: Seq<NormalizedFunction>) -> bool {
    forall|i: int, j: int|
        0 <= i < j < functions.len() ==> (#[trigger] functions[i]).name@ != (
        #[trigger] functions[j]).name@
}

/// Whether one of `functions` is called `name`.
pub open spec fn has_function(functions: Seq<NormalizedFunction>, name: Seq<char>) -> bool {
    exists|i: int| 0 <= i < functions.len() && (#[trigger] functions[i]).name@ == name
}

/// The functions of one module, by name: no two of them share a name.
#[derive(Debug, PartialEq, Eq)]
pub struct NormalizedModule {
    name: String,
    functions: Vec<NormalizedFunction>,
}

impl NormalizedModule {
    #[verifier::type_invariant]
    spec fn names_are_unique(&self) -> bool {
        distinct_function_names(self.functions@)
    }

    /// The name of the module.
    pub closed spec fn name(&self) -> Seq<char> {
        self.name@
    }

    /// The functions of the module, in the order in which they were put in.
    pub closed spec fn functions(&self) -> Seq<NormalizedFunction> {
        self.functions@
    }

    /// A module without functions.
    pub fn new(name: String) -> (module: Self)
        ensures
            module.name() == name@,
            module.functions() == Seq::<NormalizedFunction>::empty(),
    {
        NormalizedModule { name, functions: Vec::new() }
    }

    /// Puts `function` into the module, unless the module already has a
    /// function of its name. Returns whether it was put in.
    pub fn insert(&mut self, function: NormalizedFunction) -> (inserted: bool)
        ensures
            inserted == !has_function(old(self).functions(), function.name@),
            inserted ==> final(self).functions() == old(self).functions().push(function),
            !inserted ==> final(self).functions() == old(self).functions(),
            final(self).name() == old(self).name(),
            distinct_function_names(final(self).functions()),
    {
        proof {
            use_type_invariant(&*self);
        }
        let mut i: usize = 0;
        while i < self.functions.len()
            invariant
                i <= self.functions@.len(),
                distinct_function_names(self.functions@),
                forall|j: int| 0 <= j < i ==> self.functions@[j].name@ != function.name@,
            decreases self.functions@.len() - i,
        {
            if self.functions[i].name == function.name {
                return false;
            }
            i += 1;
        }
        let mut taken = NormalizedModule { name: String::new(), functions: Vec::new() };
        core::mem::swap(self, &mut taken);
        proof {
            use_type_invariant(&taken);
        }
        let NormalizedModule { name, functions: mut functions } = taken;
        let ghost before = functions@;
        functions.push(function);
        proof {
            assert forall|i: int, j: int| 0 <= i < j < functions@.len() implies (
            #[trigger] functions@[i]).name@ != (#[trigger] functions@[j]).name@ by {
                assert(functions@[i] == before[i]);
                if j < before.len() {
                    assert(functions@[j] == before[j]);
                }
            }
        }
        *self = NormalizedModule { name, functions };
        true
    }

    /// Looks a function up by name.
    pub fn get(&self, name: &String) -> (found: Option<&NormalizedFunction>)
        ensures
            distinct_function_names(self.functions()),
            match found {
                Some(function) => function_named(self.functions(), name@) == Some(*function),
                None => function_named(self.functions(), name@) is None,
            },
    {
        proof {
            use_type_invariant(self);
        }
        let mut i: usize = 0;
        while i < self.functions.len()
            invariant
                i <= self.functions@.len(),
                distinct_function_names(self.functions@),
                function_named(self.functions@, name@) == function_named_from(
                    self.functions@,
                    name@,
                    i as int,
                ),
            decreases self.functions@.len() - i,
        {
            let candidate = &self.functions[i];
            if candidate.name == *name {
                return Some(candidate);
            }
            i += 1;
        }
        None
    }
}

/// Whether no two of `modules` share a name.
pub open spec fn distinct_module_names(modules: Seq<NormalizedModule>) -> bool {
    forall|i: int, j: int|
        0 <= i < j < modules.len() ==> (#[trigger] modules[i]).name() != (
        #[trigger] modules[j]).name()
}

/// Whether one of `modules` is called `name`.
pub open spec fn has_module(modules: Seq<NormalizedModule>, name: Seq<char>) -> bool {
    exists|i: int| 0 <= i < modules.len() && (#[trigger] modules[i]).name() == name
}

/// The modules of one package, by name: no two of them share a name.
#[derive(Debug, PartialEq, Eq)]
pub struct ModuleTable {
    modules: Vec<NormalizedModule>,
}

impl ModuleTable {
    #[verifier::type_invariant]
    spec fn names_are_unique(&self) -> bool {
        distinct_module_names(self.modules@)
    }

    /// The modules of the table, in the order in which they were put in.
    pub closed spec fn modules(&self) -> Seq<NormalizedModule> {
        self.modules@
    }

    /// A table without modules.
    pub fn new() -> (table: Self)
        ensures
            table.modules() == Seq::<NormalizedModule>::empty(),
    {
        ModuleTable { modules: Vec::new() }
    }

    /// Puts `module` into the table, unless the table already has a module
    /// of its name. Returns whether it was put in.
    pub fn insert(&mut self, module: NormalizedModule) -> (inserted: bool)
        ensures
            inserted == !has_module(old(self).modules(), module.name()),
            inserted ==> final(self).modules() == old(self).modules().push(module),
            !inserted ==> final(self).modules() == old(self).modules(),
            distinct_module_names(final(self).modules()),
    {
        proof {
            use_type_invariant(&*self);
        }
        let mut i: usize = 0;
        while i < self.modules.len()
            invariant
                i <= self.modules@.len(),
                distinct_module_names(self.modules@),
                forall|j: int| 0 <= j < i ==> self.modules@[j].name() != module.name(),
            decreases self.modules@.len() - i,
        {
            if self.modules[i].name == module.name {
                return false;
            }
            i += 1;
        }
        let mut taken = ModuleTable { modules: Vec::new() };
        core::mem::swap(self, &mut taken);
        proof {
            use_type_invariant(&taken);
        }
        let ModuleTable { modules: mut modules } = taken;
        let ghost before = modules@;
        modules.push(module);
        proof {
            assert forall|i: int, j: int| 0 <= i < j < modules@.len() implies (
            #[trigger] modules@[i]).name() != (#[trigger] modules@[j]).name() by {
                assert(modules@[i] == before[i]);
                if j < before.len() {
                    assert(modules@[j] == before[j]);
                }
            }
        }
        *self = ModuleTable { modules };
        true
    }

    /// Looks a module up by name.
    pub fn get(&self, name: &String) -> (found: Option<&NormalizedModule>)
        ensures
            distinct_module_names(self.modules()),
            match found {
                Some(module) => module_named(self.modules(), name@) == Some(*module),
                None => module_named(self.modules(), name@) is None,
            },
    {
        proof {
            use_type_invariant(self);
        }
        let mut i: usize = 0;
        while i < self.modules.len()
            invariant
                i <= self.modules@.len(),
                distinct_module_names(self.modules@),
                module_named(self.modules@, name@) == module_named_from(
                    self.modules@,
                    name@,
                    i as int,
                ),
            decreases self.modules@.len() - i,
        {
            let candidate = &self.modules[i];
            if candidate.name == *name {
                return Some(candidate);
            }
            i += 1;
        }
        None
    }
}

/// A package together with the signature tables of its modules. The tables
/// are borrowed from the snapshot that the package was read from.
#[derive(Clone, Copy, Debug, PartialEq, Eq)]
pub struct NormalizedPackage<'a> {
    pub package: ObjectRef,
    pub normalized_modules: &'a ModuleTable,
}

/// Where no two functions share a name, the function found under a name is
/// the only one of that name.
pub proof fn lemma_function_named_is_the_one(
    functions: Seq<NormalizedFunction>,
    name: Seq<char>,
    position: int,
)
    requires
        distinct_function_names(functions),
        0 <= position < functions.len(),
        functions[position].name@ == name,
    ensures
        function_named(functions, name) == Some(functions[position]),
{
    lemma_function_named_from(functions, name, position, 0);
}

proof fn lemma_function_named_from(
    functions: Seq<NormalizedFunction>,
    name: Seq<char>,
    position: int,
    from: int,
)
    requires
        distinct_function_names(functions),
        0 <= from <= position < functions.len(),
        functions[position].name@ == name,
    ensures
        function_named_from(functions, name, from) == Some(functions[position]),
    decreases position - from,
{
    if from < position {
        assert(functions[from].name@ != functions[position].name@);
        lemma_function_named_from(functions, name, position, from + 1);
    }
}

/// Where no two modules share a name, the module found under a name is the
/// only one of that name.
pub proof fn lemma_module_named_is_the_one(
    modules: Seq<NormalizedModule>,
    name: Seq<char>,
    position: int,
)
    requires
        distinct_module_names(modules),
        0 <= position < modules.len(),
        modules[position].name() == name,
    ensures
        module_named(modules, name) == Some(modules[position]),
{
    lemma_module_named_from(modules, name, position, 0);
}

proof fn lemma_module_named_from(
    modules: Seq<NormalizedModule>,
    name: Seq<char>,
    position: int,
    from: int,
)
    requires
        distinct_module_names(modules),
        0 <= from <= position < modules.len(),
        modules[position].name() == name,
    ensures
        module_named_from(modules, name, from) == Some(modules[position]),
    decreases position - from,
{
    if from < position {
        assert(modules[from].name() != modules[position].name());
        lemma_module_named_from(modules, name, position, from + 1);
    }
}

/// The first function called `name` among `functions` at or after position
/// `from`, if there is one.
pub open spec fn function_named_from(
    functions: Seq<NormalizedFunction>,
    name: Seq<char>,
    from: int,
) -> Option<NormalizedFunction>
    decreases functions.len() - from,
{
    if from < 0 || from >= functions.len() {
        None
    } else if functions[from].name@ == name {
        Some(functions[from])
    } else {
        function_named_from(functions, name, from + 1)
    }
}

/// The first function called `name` among `functions`, if there is one.
pub open spec fn function_named(functions: Seq<NormalizedFunction>, name: Seq<char>) -> Option<
    NormalizedFunction,
> {
    function_named_from(functions, name, 0)
}

/// The first module called `name` among `modules` at or after position
/// `from`, if there is one.
pub open spec fn module_named_from(
    modules: Seq<NormalizedModule>,
    name: Seq<char>,
    from: int,
) -> Option<NormalizedModule>
    decreases modules.len() - from,
{
    if from < 0 || from >= modules.len() {
        None
    } else if modules[from].name() == name {
        Some(modules[from])
    } else {
        module_named_from(modules, name, from + 1)
    }
}

/// The first module called `name` among `modules`, if there is one.
pub open spec fn module_named(modules: Seq<NormalizedModule>, name: Seq<char>) -> Option<
    NormalizedModule,
> {
    module_named_from(modules, name, 0)
}

/// The first package with identifier `id` among `packages` at or after
/// position `from`, if there is one.
pub open spec fn package_with_id_from(
    packages: Seq<NormalizedPackage>,
    id: ObjectId,
    from: int,
) -> Option<NormalizedPackage>
    decreases packages.len() - from,
{
    if from < 0 || from >= packages.len() {
        None
    } else if packages[from].package.id == id {
        Some(packages[from])
    } else {
        package_with_id_from(packages, id, from + 1)
    }
}

/// The first package with identifier `id` among `packages`, if there is one.
pub open spec fn package_with_id(packages: Seq<NormalizedPackage>, id: ObjectId) -> Option<
    NormalizedPackage,
> {
    package_with_id_from(packages, id, 0)
}

/// The parameters of `package::module::function` as the tables in
/// `packages` give them; `None` where the package, the module or the
/// function is missing.
pub open spec fn parameters_of(
    packages: Seq<NormalizedPackage>,
    package: ObjectId,
    module: Seq<char>,
    function: Seq<char>,
) -> Option<Seq<ParameterKind>> {
    match package_with_id(packages, package) {
        None => None,
        Some(p) => match module_named(p.normalized_modules.modules(), module) {
            None => None,
            Some(m) => match function_named(m.functions(), function) {
                None => None,
                Some(f) => Some(f.parameters@),
            },
        },
    }
}

/// Looks a package up by its identifier.
pub fn find_package<'a, 'b>(packages: &'b Vec<NormalizedPackage<'a>>, id: &ObjectId) -> (found:
    Option<&'b NormalizedPackage<'a>>)
    ensures
        match found {
            Some(p) => package_with_id(packages@, *id) == Some(*p),
            None => package_with_id(packages@, *id) is None,
        },
{
    let mut i: usize = 0;
    while i < packages.len()
        invariant
            i <= packages.len(),
            package_with_id(packages@, *id) == package_with_id_from(packages@, *id, i as int),
        decreases packages.len() - i,
    {
        let candidate = &packages[i];
        if candidate.package.id == *id {
            return Some(candidate);
        }
        i += 1;
    }
    None
}

/// Looks up the parameters of `package::module::function`.
pub fn find_parameters<'a, 'b>(
    packages: &'b Vec<NormalizedPackage<'a>>,
    package: &ObjectId,
    module: &String,
    function: &String,
) -> (found: Option<&'a Vec<ParameterKind>>)
    ensures
        match found {
            Some(parameters) => parameters_of(packages@, *package, module@, function@) == Some(
                parameters@,
            ),
            None => parameters_of(packages@, *package, module@, function@) is None,
        },
{
    match find_package(packages, package) {
        None => None,
        Some(p) => match p.normalized_modules.get(module) {
            None => None,
            Some(m) => match m.get(function) {
                None => None,
                Some(f) => Some(&f.parameters),
            },
        },
    }
}

} // verus!
