//! The values that completion reasons about, what a function's parameters
//! accept, and the world that supplies scopes, fonts, method tables and the
//! evaluator's answers.
use vstd::prelude::*;

verus! {

/// A symbol: a default glyph and the glyphs that its modifiers select.
pub struct Symbol {
    pub glyph: char,
    pub variants: Vec<SymbolVariant>,
}

/// A modifier of a symbol and the glyph that it selects.
pub struct SymbolVariant {
    pub modifier: String,
    pub glyph: char,
}

/// What a parameter accepts.
pub enum CastInfo {
    /// Any value.
    Any,
    /// Exactly this value, with a one-sentence description.
    Value(Value, String),
    /// Any value of the named type.
    Type(String),
    /// Any value that one of the branches accepts.
    Union(Vec<CastInfo>),
}

/// A parameter of a function.
pub struct ParamInfo {
    pub name: String,
    /// The first sentence of the parameter's documentation.
    pub docs: String,
    pub cast: CastInfo,
    pub positional: bool,
    pub named: bool,
    pub settable: bool,
}

/// What is known of a function.
pub struct FuncInfo {
    /// The first sentence of the function's documentation.
    pub docs: String,
    pub params: Vec<ParamInfo>,
}

/// A function value.
pub struct Func {
    pub info: Option<FuncInfo>,
    /// Whether the function can stand as the selector of a show rule.
    pub selectable: bool,
}

/// The shape of a value.
pub enum ValueData {
    /// A value of no shape that completion looks into.
    Plain,
    /// A string, with its content.
    Str(String),
    Symbol(Symbol),
    Content,
    Func(Func),
    /// A dictionary, in its order.
    Dict(Vec<Binding>),
    /// A module and its exported scope.
    Module(Vec<Binding>),
}

/// A value with the name of its type and its textual representation.
pub struct Value {
    pub ty: String,
    pub repr: String,
    pub data: ValueData,
}

/// A name bound to a value. A scope is an ordered list of bindings.
pub struct Binding {
    pub name: String,
    pub value: Value,
}

/// A font family and a short description of its variants.
pub struct FontFamily {
    pub name: String,
    pub summary: String,
}

/// A method: its name and whether it takes arguments.
pub struct Method {
    pub name: String,
    pub takes_args: bool,
}

/// The methods of a type.
pub struct MethodTable {
    pub ty: String,
    pub methods: Vec<Method>,
}

/// The first value that the evaluator finds for the expression at a node.
pub struct Evaluation {
    pub node: usize,
    pub value: Value,
}

/// A module that an import path resolves to.
pub struct ModuleFile {
    pub path: String,
    pub scope: Vec<Binding>,
}

/// Everything that completion learns from outside the syntax tree.
pub struct World {
    pub global: Vec<Binding>,
    pub math: Vec<Binding>,
    pub fonts: Vec<FontFamily>,
    pub methods: Vec<MethodTable>,
    pub evaluations: Vec<Evaluation>,
    pub modules: Vec<ModuleFile>,
}

/// The first binding at or after index `i` with the given name.
pub open spec fn find_binding(s: Seq<Binding>, name: Seq<char>, i: int) -> Option<int>
    decreases s.len() - i,
{
    if i < 0 || i >= s.len() {
        None
    } else if s[i].name@ == name {
        Some(i)
    } else {
        find_binding(s, name, i + 1)
    }
}

/// The first evaluation at or after index `i` for the given node.
pub open spec fn find_evaluation(s: Seq<Evaluation>, node: usize, i: int) -> Option<int>
    decreases s.len() - i,
{
    if i < 0 || i >= s.len() {
        None
    } else if s[i].node == node {
        Some(i)
    } else {
        find_evaluation(s, node, i + 1)
    }
}

/// The first method table at or after index `i` for the given type.
pub open spec fn find_methods(s: Seq<MethodTable>, ty: Seq<char>, i: int) -> Option<int>
    decreases s.len() - i,
{
    if i < 0 || i >= s.len() {
        None
    } else if s[i].ty@ == ty {
        Some(i)
    } else {
        find_methods(s, ty, i + 1)
    }
}

/// The first module at or after index `i` for the given path.
pub open spec fn find_module(s: Seq<ModuleFile>, path: Seq<char>, i: int) -> Option<int>
    decreases s.len() - i,
{
    if i < 0 || i >= s.len() {
        None
    } else if s[i].path@ == path {
        Some(i)
    } else {
        find_module(s, path, i + 1)
    }
}

/// The binding of a name in a scope: the first one.
pub fn lookup(scope: &Vec<Binding>, name: &String) -> (r: Option<usize>)
    ensures
        match r {
            Some(i) => find_binding(scope@, name@, 0) == Some(i as int) && i < scope@.len(),
            None => find_binding(scope@, name@, 0) is None,
        },
{
    let mut i: usize = 0;
    while i < scope.len()
        invariant
            i <= scope@.len(),
            find_binding(scope@, name@, 0) == find_binding(scope@, name@, i as int),
        decreases scope@.len() - i,
    {
        if scope[i].name == *name {
            return Some(i);
        }
        i = i + 1;
    }
    None
}

/// No name is bound twice.
pub open spec fn unique_names(s: Seq<Binding>) -> bool {
    forall|i: int, j: int| 0 <= i < j < s.len() ==> #[trigger] s[i].name@ != #[trigger] s[j].name@
}

/// A dictionary's or module's entries bind each name once.
pub open spec fn entries_unique(v: Value) -> bool {
    match v.data {
        ValueData::Dict(es) => unique_names(es@),
        ValueData::Module(sc) => unique_names(sc@),
        _ => true,
    }
}

/// Whether no name is bound twice.
pub fn has_unique_names(s: &Vec<Binding>) -> (r: bool)
    ensures
        r == unique_names(s@),
{
    let n = s.len();
    let mut i: usize = 0;
    while i < n
        invariant
            n == s@.len(),
            i <= n,
            forall|a: int, b: int| 0 <= a < i && a < b < n ==> #[trigger] s@[a].name@ != #[trigger] s@[b].name@,
        decreases n - i,
    {
        let mut j: usize = i + 1;
        while j < n
            invariant
                n == s@.len(),
                i < n,
                i + 1 <= j <= n,
                forall|b: int| i < b < j ==> s@[i as int].name@ != #[trigger] s@[b].name@,
            decreases n - j,
        {
            if s[i].name == s[j].name {
                assert(s@[i as int].name@ == s@[j as int].name@);
                return false;
            }
            j = j + 1;
        }
        assert forall|a: int, b: int| 0 <= a < i + 1 && a < b < n implies #[trigger] s@[a].name@
            != #[trigger] s@[b].name@ by {
            if a == i {
                assert(i < b < j);
            }
        }
        i = i + 1;
    }
    true
}

/// Whether a value's entries bind each name once.
fn has_unique_entries(v: &Value) -> (r: bool)
    ensures
        r == entries_unique(*v),
{
    match &v.data {
        ValueData::Dict(es) => has_unique_names(es),
        ValueData::Module(sc) => has_unique_names(sc),
        _ => true,
    }
}

impl World {
    /// Every scope is a mapping: the global and math scopes, each module's
    /// scope, and the entries of each evaluated dictionary or module bind
    /// each name once.
    pub open spec fn wf(&self) -> bool {
        &&& unique_names(self.global@)
        &&& unique_names(self.math@)
        &&& forall|k: int| 0 <= k < self.modules@.len() ==> unique_names(#[trigger] self.modules@[k].scope@)
        &&& forall|k: int|
            0 <= k < self.evaluations@.len() ==> entries_unique(#[trigger] self.evaluations@[k].value)
    }

    /// Whether every scope binds each name once.
    pub fn is_well_formed(&self) -> (r: bool)
        ensures
            r == self.wf(),
    {
        if !has_unique_names(&self.global) || !has_unique_names(&self.math) {
            return false;
        }
        let mut k: usize = 0;
        while k < self.modules.len()
            invariant
                k <= self.modules@.len(),
                forall|m: int| 0 <= m < k ==> unique_names(#[trigger] self.modules@[m].scope@),
            decreases self.modules@.len() - k,
        {
            if !has_unique_names(&self.modules[k].scope) {
                return false;
            }
            k = k + 1;
        }
        let mut e: usize = 0;
        while e < self.evaluations.len()
            invariant
                e <= self.evaluations@.len(),
                forall|m: int| 0 <= m < e ==> entries_unique(#[trigger] self.evaluations@[m].value),
            decreases self.evaluations@.len() - e,
        {
            if !has_unique_entries(&self.evaluations[e].value) {
                return false;
            }
            e = e + 1;
        }
        true
    }

    /// The first value that the evaluator found for the expression at a node.
    pub fn evaluation(&self, node: usize) -> (r: Option<&Value>)
        ensures
            match find_evaluation(self.evaluations@, node, 0) {
                Some(k) => r == Some(&self.evaluations@[k].value),
                None => r is None,
            },
    {
        let mut i: usize = 0;
        while i < self.evaluations.len()
            invariant
                i <= self.evaluations@.len(),
                find_evaluation(self.evaluations@, node, 0) == find_evaluation(
                    self.evaluations@,
                    node,
                    i as int,
                ),
            decreases self.evaluations@.len() - i,
        {
            if self.evaluations[i].node == node {
                return Some(&self.evaluations[i].value);
            }
            i = i + 1;
        }
        None
    }

    /// The methods of a type; none where the type has no table.
    pub fn methods_on(&self, ty: &String) -> (r: Option<&Vec<Method>>)
        ensures
            match find_methods(self.methods@, ty@, 0) {
                Some(k) => r == Some(&self.methods@[k].methods),
                None => r is None,
            },
    {
        let mut i: usize = 0;
        while i < self.methods.len()
            invariant
                i <= self.methods@.len(),
                find_methods(self.methods@, ty@, 0) == find_methods(self.methods@, ty@, i as int),
            decreases self.methods@.len() - i,
        {
            if self.methods[i].ty == *ty {
                return Some(&self.methods[i].methods);
            }
            i = i + 1;
        }
        None
    }

    /// The scope of the module that an import path resolves to.
    pub fn resolve_import(&self, path: &String) -> (r: Option<&Vec<Binding>>)
        ensures
            match find_module(self.modules@, path@, 0) {
                Some(k) => r == Some(&self.modules@[k].scope),
                None => r is None,
            },
    {
        let mut i: usize = 0;
        while i < self.modules.len()
            invariant
                i <= self.modules@.len(),
                find_module(self.modules@, path@, 0) == find_module(
                    self.modules@,
                    path@,
                    i as int,
                ),
            decreases self.modules@.len() - i,
        {
            if self.modules[i].path == *path {
                return Some(&self.modules[i].scope);
            }
            i = i + 1;
        }
        None
    }
}

/// Which values of a scope a completion offers.
pub enum ValueFilter {
    /// Every value.
    All,
    /// Functions with at least one settable parameter.
    Settable,
    /// Functions that can select elements in a show rule.
    Selectable,
    /// Functions.
    Func,
    /// Values that can follow an inline-code escape in markup: symbols,
    /// functions and modules.
    Interpolable,
    /// Values of the named type.
    TypeName(String),
}

pub open spec fn has_settable(info: FuncInfo) -> bool {
    exists|k: int| 0 <= k < info.params@.len() && #[trigger] info.params@[k].settable
}

fn any_settable(info: &FuncInfo) -> (r: bool)
    ensures
        r == has_settable(*info),
{
    let mut k: usize = 0;
    while k < info.params.len()
        invariant
            k <= info.params@.len(),
            forall|m: int| 0 <= m < k ==> !(#[trigger] info.params@[m].settable),
        decreases info.params@.len() - k,
    {
        if info.params[k].settable {
            assert(info.params@[k as int].settable);
            return true;
        }
        k = k + 1;
    }
    false
}

impl ValueFilter {
    pub open spec fn spec_accepts(&self, v: &Value) -> bool {
        match self {
            ValueFilter::All => true,
            ValueFilter::Settable => match v.data {
                ValueData::Func(f) => match f.info {
                    Some(info) => has_settable(info),
                    None => false,
                },
                _ => false,
            },
            ValueFilter::Selectable => match v.data {
                ValueData::Func(f) => f.selectable,
                _ => false,
            },
            ValueFilter::Func => v.data is Func,
            ValueFilter::Interpolable => v.data is Symbol || v.data is Func || v.data is Module,
            ValueFilter::TypeName(t) => v.ty@ == t@,
        }
    }

    #[verifier::when_used_as_spec(spec_accepts)]
    pub fn accepts(&self, v: &Value) -> (r: bool)
        ensures
            r == self.spec_accepts(v),
    {
        match self {
            ValueFilter::All => true,
            ValueFilter::Settable => match &v.data {
                ValueData::Func(f) => match &f.info {
                    Some(info) => any_settable(info),
                    None => false,
                },
                _ => false,
            },
            ValueFilter::Selectable => match &v.data {
                ValueData::Func(f) => f.selectable,
                _ => false,
            },
            ValueFilter::Func => match &v.data {
                ValueData::Func(_) => true,
                _ => false,
            },
            ValueFilter::Interpolable => match &v.data {
                ValueData::Symbol(_) | ValueData::Func(_) | ValueData::Module(_) => true,
                _ => false,
            },
            ValueFilter::TypeName(t) => v.ty == *t,
        }
    }
}

} // verus!
