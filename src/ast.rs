//! The document model: the raw, order-preserving elements that the parser
//! produces, and the assembled module with its uniquely named declarations.
//!
//! Every type has a deep view into a mathematical model, which the contracts
//! of the library speak of.

use vstd::prelude::*;

use crate::text::{join_path, split_path, split_path_exec};

verus! {

/// An ordered mapping: names with their values, in the order of declaration.
pub type OrderedMap<T> = Vec<(String, T)>;

/// A `::`-separated path, held as its segments.
#[derive(Clone, Debug, PartialEq)]
pub struct Namespace {
    pub components: Vec<String>,
}

/// A parameter of an attribute: `key` or `key = "value"`.
#[derive(Clone, Debug, PartialEq)]
pub struct Parameter {
    pub name: String,
    pub value: Option<String>,
}

/// `name` or `name(param, ...)`, as written inside `#[...]`.
#[derive(Clone, Debug, PartialEq)]
pub struct Attribute {
    pub name: Namespace,
    pub parameters: Vec<Parameter>,
}

/// A reference to a type: scalar, dynamic list (`list of T`) or fixed list
/// (`N of T`), with its attributes and the comments that preceded it.
#[derive(Clone, Debug, PartialEq)]
pub struct TypeName {
    pub typ: Namespace,
    pub is_list: bool,
    pub count: Option<usize>,
    pub attributes: Vec<Attribute>,
    pub comments: Vec<String>,
}

/// The name under which a type reference appears where it names no property.
pub type NameTypePair = TypeName;

/// A variant of an enum, with its optional explicit value.
#[derive(Clone, Debug, PartialEq)]
pub struct EnumValue {
    pub value: Option<i64>,
    pub attributes: Vec<Attribute>,
    pub comments: Vec<String>,
}

/// `import some::path;`
#[derive(Clone, Debug, PartialEq)]
pub struct Import {
    pub path: Namespace,
    pub attributes: Vec<Attribute>,
}

/// `depends on some::path;` inside a service.
#[derive(Clone, Debug, PartialEq)]
pub struct Dependency {
    pub name: Namespace,
    pub attributes: Vec<Attribute>,
    pub comments: Vec<String>,
}

/// A data type: its properties in order of declaration.
#[derive(Clone, Debug, PartialEq)]
pub struct DataType {
    pub properties: OrderedMap<TypeName>,
    pub attributes: Vec<Attribute>,
}

/// An enum: its variants in order of declaration.
#[derive(Clone, Debug, PartialEq)]
pub struct Enum {
    pub values: OrderedMap<EnumValue>,
    pub attributes: Vec<Attribute>,
}

/// A function of a service.
#[derive(Clone, Debug, PartialEq)]
pub struct Function {
    pub arguments: OrderedMap<TypeName>,
    pub return_type: Option<TypeName>,
    pub attributes: Vec<Attribute>,
    pub comments: Vec<String>,
}

/// An event of a service.
#[derive(Clone, Debug, PartialEq)]
pub struct Event {
    pub arguments: OrderedMap<TypeName>,
    pub attributes: Vec<Attribute>,
    pub comments: Vec<String>,
}

/// An assembled service.
#[derive(Clone, Debug, PartialEq)]
pub struct Service {
    pub dependencies: Vec<Dependency>,
    pub functions: OrderedMap<Function>,
    pub events: OrderedMap<Event>,
    pub attributes: Vec<Attribute>,
}

/// An assembled source file.
#[derive(Clone, Debug, PartialEq)]
pub struct SsdModule {
    pub namespace: Namespace,
    pub imports: Vec<Import>,
    pub data_types: OrderedMap<DataType>,
    pub enums: OrderedMap<Enum>,
    pub services: OrderedMap<Service>,
}

/// A top-level element of a source file, in document order.
#[derive(Clone, Debug, PartialEq)]
pub enum AstElement {
    Comment(String),
    Import(Import),
    DataType(String, DataType),
    Enum(String, Enum),
    Service(String, Vec<ServiceAstElement>, Vec<Attribute>),
}

/// An element of a service body, in document order.
#[derive(Clone, Debug, PartialEq)]
pub enum ServiceAstElement {
    Comment(String),
    Dependency(Dependency),
    Function(String, Function),
    Event(String, Event),
}

// ---------------------------------------------------------------------------
// Models
// ---------------------------------------------------------------------------

pub struct ParameterModel {
    pub name: Seq<char>,
    pub value: Option<Seq<char>>,
}

pub struct AttributeModel {
    pub name: Seq<Seq<char>>,
    pub parameters: Seq<ParameterModel>,
}

pub struct TypeNameModel {
    pub typ: Seq<Seq<char>>,
    pub is_list: bool,
    pub count: Option<usize>,
    pub attributes: Seq<AttributeModel>,
    pub comments: Seq<Seq<char>>,
}

pub struct EnumValueModel {
    pub value: Option<i64>,
    pub attributes: Seq<AttributeModel>,
    pub comments: Seq<Seq<char>>,
}

pub struct ImportModel {
    pub path: Seq<Seq<char>>,
    pub attributes: Seq<AttributeModel>,
}

pub struct DependencyModel {
    pub name: Seq<Seq<char>>,
    pub attributes: Seq<AttributeModel>,
    pub comments: Seq<Seq<char>>,
}

pub struct DataTypeModel {
    pub properties: Seq<(Seq<char>, TypeNameModel)>,
    pub attributes: Seq<AttributeModel>,
}

pub struct EnumModel {
    pub values: Seq<(Seq<char>, EnumValueModel)>,
    pub attributes: Seq<AttributeModel>,
}

pub struct FunctionModel {
    pub arguments: Seq<(Seq<char>, TypeNameModel)>,
    pub return_type: Option<TypeNameModel>,
    pub attributes: Seq<AttributeModel>,
    pub comments: Seq<Seq<char>>,
}

pub struct EventModel {
    pub arguments: Seq<(Seq<char>, TypeNameModel)>,
    pub attributes: Seq<AttributeModel>,
    pub comments: Seq<Seq<char>>,
}

pub struct ServiceModel {
    pub dependencies: Seq<DependencyModel>,
    pub functions: Seq<(Seq<char>, FunctionModel)>,
    pub events: Seq<(Seq<char>, EventModel)>,
    pub attributes: Seq<AttributeModel>,
}

pub struct ModuleModel {
    pub namespace: Seq<Seq<char>>,
    pub imports: Seq<ImportModel>,
    pub data_types: Seq<(Seq<char>, DataTypeModel)>,
    pub enums: Seq<(Seq<char>, EnumModel)>,
    pub services: Seq<(Seq<char>, ServiceModel)>,
}

pub enum ElementModel {
    Comment(Seq<char>),
    Import(ImportModel),
    DataType(Seq<char>, DataTypeModel),
    Enum(Seq<char>, EnumModel),
    Service(Seq<char>, Seq<ServiceElementModel>, Seq<AttributeModel>),
}

pub enum ServiceElementModel {
    Comment(Seq<char>),
    Dependency(DependencyModel),
    Function(Seq<char>, FunctionModel),
    Event(Seq<char>, EventModel),
}

impl DeepView for Namespace {
    type V = Seq<Seq<char>>;

    open spec fn deep_view(&self) -> Seq<Seq<char>> {
        self.components.deep_view()
    }
}

impl DeepView for Parameter {
    type V = ParameterModel;

    open spec fn deep_view(&self) -> ParameterModel {
        ParameterModel { name: self.name@, value: self.value.deep_view() }
    }
}

impl DeepView for Attribute {
    type V = AttributeModel;

    open spec fn deep_view(&self) -> AttributeModel {
        AttributeModel { name: self.name.deep_view(), parameters: self.parameters.deep_view() }
    }
}

impl DeepView for TypeName {
    type V = TypeNameModel;

    open spec fn deep_view(&self) -> TypeNameModel {
        TypeNameModel {
            typ: self.typ.deep_view(),
            is_list: self.is_list,
            count: self.count,
            attributes: self.attributes.deep_view(),
            comments: self.comments.deep_view(),
        }
    }
}

impl DeepView for EnumValue {
    type V = EnumValueModel;

    open spec fn deep_view(&self) -> EnumValueModel {
        EnumValueModel {
            value: self.value,
            attributes: self.attributes.deep_view(),
            comments: self.comments.deep_view(),
        }
    }
}

impl DeepView for Import {
    type V = ImportModel;

    open spec fn deep_view(&self) -> ImportModel {
        ImportModel { path: self.path.deep_view(), attributes: self.attributes.deep_view() }
    }
}

impl DeepView for Dependency {
    type V = DependencyModel;

    open spec fn deep_view(&self) -> DependencyModel {
        DependencyModel {
            name: self.name.deep_view(),
            attributes: self.attributes.deep_view(),
            comments: self.comments.deep_view(),
        }
    }
}

impl DeepView for DataType {
    type V = DataTypeModel;

    open spec fn deep_view(&self) -> DataTypeModel {
        DataTypeModel {
            properties: self.properties.deep_view(),
            attributes: self.attributes.deep_view(),
        }
    }
}

impl DeepView for Enum {
    type V = EnumModel;

    open spec fn deep_view(&self) -> EnumModel {
        EnumModel { values: self.values.deep_view(), attributes: self.attributes.deep_view() }
    }
}

impl DeepView for Function {
    type V = FunctionModel;

    open spec fn deep_view(&self) -> FunctionModel {
        FunctionModel {
            arguments: self.arguments.deep_view(),
            return_type: self.return_type.deep_view(),
            attributes: self.attributes.deep_view(),
            comments: self.comments.deep_view(),
        }
    }
}

impl DeepView for Event {
    type V = EventModel;

    open spec fn deep_view(&self) -> EventModel {
        EventModel {
            arguments: self.arguments.deep_view(),
            attributes: self.attributes.deep_view(),
            comments: self.comments.deep_view(),
        }
    }
}

impl DeepView for Service {
    type V = ServiceModel;

    open spec fn deep_view(&self) -> ServiceModel {
        ServiceModel {
            dependencies: self.dependencies.deep_view(),
            functions: self.functions.deep_view(),
            events: self.events.deep_view(),
            attributes: self.attributes.deep_view(),
        }
    }
}

impl DeepView for SsdModule {
    type V = ModuleModel;

    open spec fn deep_view(&self) -> ModuleModel {
        ModuleModel {
            namespace: self.namespace.deep_view(),
            imports: self.imports.deep_view(),
            data_types: self.data_types.deep_view(),
            enums: self.enums.deep_view(),
            services: self.services.deep_view(),
        }
    }
}

impl DeepView for ServiceAstElement {
    type V = ServiceElementModel;

    open spec fn deep_view(&self) -> ServiceElementModel {
        match self {
            ServiceAstElement::Comment(c) => ServiceElementModel::Comment(c@),
            ServiceAstElement::Dependency(d) => ServiceElementModel::Dependency(d.deep_view()),
            ServiceAstElement::Function(n, f) => ServiceElementModel::Function(
                n@,
                f.deep_view(),
            ),
            ServiceAstElement::Event(n, e) => ServiceElementModel::Event(n@, e.deep_view()),
        }
    }
}

impl DeepView for AstElement {
    type V = ElementModel;

    open spec fn deep_view(&self) -> ElementModel {
        match self {
            AstElement::Comment(c) => ElementModel::Comment(c@),
            AstElement::Import(i) => ElementModel::Import(i.deep_view()),
            AstElement::DataType(n, d) => ElementModel::DataType(n@, d.deep_view()),
            AstElement::Enum(n, e) => ElementModel::Enum(n@, e.deep_view()),
            AstElement::Service(n, body, attrs) => ElementModel::Service(
                n@,
                body.deep_view(),
                attrs.deep_view(),
            ),
        }
    }
}

/// A type reference is a list whenever it has a fixed count.
pub open spec fn type_name_wf(t: TypeNameModel) -> bool {
    t.count is Some ==> t.is_list
}

// ---------------------------------------------------------------------------
// Constructors
// ---------------------------------------------------------------------------

impl Namespace {
    /// The path `v`, cut at each `::`.
    pub fn new(v: &str) -> (r: Namespace)
        ensures
            r.deep_view() == split_path(v@),
    {
        Namespace { components: split_path_exec(v) }
    }

    /// The path with the given segments.
    pub fn from_vec(components: Vec<String>) -> (r: Namespace)
        ensures
            r.components == components,
    {
        Namespace { components }
    }

    /// The canonical text of the path: its segments joined with `::`.
    pub fn to_string(&self) -> (r: String)
        ensures
            r@ == join_path(self.deep_view()),
    {
        let mut out = String::new();
        let mut i: usize = 0;
        while i < self.components.len()
            invariant
                i <= self.components@.len(),
                out@ == join_path(self.deep_view().take(i as int)),
            decreases self.components@.len() - i,
        {
            let ghost segs = self.deep_view();
            proof {
                assert(segs.take(i + 1).drop_last() =~= segs.take(i as int));
            }
            if i > 0 {
                out.append("::");
                proof {
                    reveal_strlit("::");
                }
            }
            out.append(self.components[i].as_str());
            proof {
                if i == 0 {
                    assert(segs.take(1) =~= seq![segs[0]]);
                    assert(out@ =~= join_path(segs.take(1)));
                } else {
                    assert(out@ =~= join_path(segs.take(i + 1)));
                }
            }
            i = i + 1;
        }
        proof {
            assert(self.deep_view().take(i as int) =~= self.deep_view());
        }
        out
    }
}

impl Dependency {
    /// Moves `comments` to the end of this declaration's comments.
    pub fn with_comments(self, comments: &mut Vec<String>) -> (r: Dependency)
        ensures
            r.name == self.name,
            r.attributes == self.attributes,
            r.comments.deep_view() == self.comments.deep_view() + old(comments).deep_view(),
            final(comments)@ == Seq::<String>::empty(),
    {
        let mut s = self;
        s.comments.append(comments);
        proof {
            assert(s.comments.deep_view() =~= self.comments.deep_view() + old(comments).deep_view());
        }
        s
    }
}

impl Function {
    /// Moves `comments` to the end of this declaration's comments.
    pub fn with_comments(self, comments: &mut Vec<String>) -> (r: Function)
        ensures
            r.arguments == self.arguments,
            r.return_type == self.return_type,
            r.attributes == self.attributes,
            r.comments.deep_view() == self.comments.deep_view() + old(comments).deep_view(),
            final(comments)@ == Seq::<String>::empty(),
    {
        let mut s = self;
        s.comments.append(comments);
        proof {
            assert(s.comments.deep_view() =~= self.comments.deep_view() + old(comments).deep_view());
        }
        s
    }
}

impl Event {
    /// Moves `comments` to the end of this declaration's comments.
    pub fn with_comments(self, comments: &mut Vec<String>) -> (r: Event)
        ensures
            r.arguments == self.arguments,
            r.attributes == self.attributes,
            r.comments.deep_view() == self.comments.deep_view() + old(comments).deep_view(),
            final(comments)@ == Seq::<String>::empty(),
    {
        let mut s = self;
        s.comments.append(comments);
        proof {
            assert(s.comments.deep_view() =~= self.comments.deep_view() + old(comments).deep_view());
        }
        s
    }
}

impl EnumValue {
    /// A variant without comments.
    pub fn new(value: Option<i64>, attributes: Vec<Attribute>) -> (r: EnumValue)
        ensures
            r.value == value,
            r.attributes == attributes,
            r.comments@ == Seq::<String>::empty(),
    {
        EnumValue { value, attributes, comments: Vec::new() }
    }

    /// Moves `comments` to the end of this variant's comments.
    pub fn with_comments(self, comments: &mut Vec<String>) -> (r: EnumValue)
        ensures
            r.value == self.value,
            r.attributes == self.attributes,
            r.comments.deep_view() == self.comments.deep_view() + old(comments).deep_view(),
            final(comments)@ == Seq::<String>::empty(),
    {
        let mut s = self;
        s.comments.append(comments);
        proof {
            assert(s.comments.deep_view() =~= self.comments.deep_view() + old(comments).deep_view());
        }
        s
    }
}

impl TypeName {
    /// A type reference without comments.
    pub fn new(typ: Namespace, is_list: bool, count: Option<usize>, attributes: Vec<Attribute>) -> (r:
        TypeName)
        requires
            count is Some ==> is_list,
        ensures
            r.typ == typ,
            r.is_list == is_list,
            r.count == count,
            r.attributes == attributes,
            r.comments@ == Seq::<String>::empty(),
            type_name_wf(r.deep_view()),
    {
        TypeName { typ, is_list, count, attributes, comments: Vec::new() }
    }

    /// Moves `comments` to the end of this type reference's comments.
    pub fn with_comments(self, comments: &mut Vec<String>) -> (r: TypeName)
        ensures
            r.typ == self.typ,
            r.is_list == self.is_list,
            r.count == self.count,
            r.attributes == self.attributes,
            r.comments@ == self.comments@ + old(comments)@,
            r.comments.deep_view() == self.comments.deep_view() + old(comments).deep_view(),
            final(comments)@ == Seq::<String>::empty(),
    {
        let mut s = self;
        s.comments.append(comments);
        proof {
            assert(s.comments.deep_view() =~= self.comments.deep_view() + old(comments).deep_view());
        }
        s
    }
}

// ---------------------------------------------------------------------------
// Copies
// ---------------------------------------------------------------------------

/// A copy with the same deep view.
pub trait DeepCopy: DeepView + Sized {
    fn deep_copy(&self) -> (r: Self)
        ensures
            r.deep_view() == self.deep_view(),
    ;
}

impl DeepCopy for String {
    fn deep_copy(&self) -> (r: String) {
        self.clone()
    }
}

impl<T: DeepCopy> DeepCopy for Option<T> {
    fn deep_copy(&self) -> (r: Option<T>) {
        match self {
            Some(x) => Some(x.deep_copy()),
            None => None,
        }
    }
}

impl<A: DeepCopy, B: DeepCopy> DeepCopy for (A, B) {
    fn deep_copy(&self) -> (r: (A, B)) {
        (self.0.deep_copy(), self.1.deep_copy())
    }
}

impl<T: DeepCopy> DeepCopy for Vec<T> {
    fn deep_copy(&self) -> (r: Vec<T>) {
        copy_slice(self.as_slice())
    }
}

/// A vector holding copies of the elements of `v`.
pub fn copy_slice<T: DeepCopy>(v: &[T]) -> (r: Vec<T>)
    ensures
        r.deep_view() == v.deep_view(),
{
    let mut out: Vec<T> = Vec::new();
    let mut i: usize = 0;
    while i < v.len()
        invariant
            i <= v@.len(),
            out.deep_view() == v.deep_view().take(i as int),
        decreases v@.len() - i,
    {
        let x = v[i].deep_copy();
        let ghost old_out = out.deep_view();
        out.push(x);
        proof {
            assert(out.deep_view() =~= old_out.push(v@[i as int].deep_view()));
            assert(v.deep_view().take(i + 1) =~= v.deep_view().take(i as int).push(
                v@[i as int].deep_view(),
            ));
        }
        i = i + 1;
    }
    proof {
        assert(v.deep_view().take(i as int) =~= v.deep_view());
    }
    out
}

impl DeepCopy for Namespace {
    fn deep_copy(&self) -> (r: Namespace) {
        Namespace { components: self.components.deep_copy() }
    }
}

impl DeepCopy for Parameter {
    fn deep_copy(&self) -> (r: Parameter) {
        Parameter { name: self.name.deep_copy(), value: self.value.deep_copy() }
    }
}

impl DeepCopy for Attribute {
    fn deep_copy(&self) -> (r: Attribute) {
        Attribute { name: self.name.deep_copy(), parameters: self.parameters.deep_copy() }
    }
}

impl DeepCopy for TypeName {
    fn deep_copy(&self) -> (r: TypeName) {
        TypeName { typ: self.typ.deep_copy(), is_list: self.is_list, count: self.count, attributes: self.attributes.deep_copy(), comments: self.comments.deep_copy() }
    }
}

impl DeepCopy for EnumValue {
    fn deep_copy(&self) -> (r: EnumValue) {
        EnumValue { value: self.value, attributes: self.attributes.deep_copy(), comments: self.comments.deep_copy() }
    }
}

impl DeepCopy for Import {
    fn deep_copy(&self) -> (r: Import) {
        Import { path: self.path.deep_copy(), attributes: self.attributes.deep_copy() }
    }
}

impl DeepCopy for Dependency {
    fn deep_copy(&self) -> (r: Dependency) {
        Dependency { name: self.name.deep_copy(), attributes: self.attributes.deep_copy(), comments: self.comments.deep_copy() }
    }
}

impl DeepCopy for DataType {
    fn deep_copy(&self) -> (r: DataType) {
        DataType { properties: self.properties.deep_copy(), attributes: self.attributes.deep_copy() }
    }
}

impl DeepCopy for Enum {
    fn deep_copy(&self) -> (r: Enum) {
        Enum { values: self.values.deep_copy(), attributes: self.attributes.deep_copy() }
    }
}

impl DeepCopy for Function {
    fn deep_copy(&self) -> (r: Function) {
        Function { arguments: self.arguments.deep_copy(), return_type: self.return_type.deep_copy(), attributes: self.attributes.deep_copy(), comments: self.comments.deep_copy() }
    }
}

impl DeepCopy for Event {
    fn deep_copy(&self) -> (r: Event) {
        Event { arguments: self.arguments.deep_copy(), attributes: self.attributes.deep_copy(), comments: self.comments.deep_copy() }
    }
}

impl DeepCopy for Service {
    fn deep_copy(&self) -> (r: Service) {
        Service { dependencies: self.dependencies.deep_copy(), functions: self.functions.deep_copy(), events: self.events.deep_copy(), attributes: self.attributes.deep_copy() }
    }
}

impl DeepCopy for SsdModule {
    fn deep_copy(&self) -> (r: SsdModule) {
        SsdModule { namespace: self.namespace.deep_copy(), imports: self.imports.deep_copy(), data_types: self.data_types.deep_copy(), enums: self.enums.deep_copy(), services: self.services.deep_copy() }
    }
}

impl DeepCopy for ServiceAstElement {
    fn deep_copy(&self) -> (r: ServiceAstElement) {
        match self {
            ServiceAstElement::Comment(c) => ServiceAstElement::Comment(c.deep_copy()),
            ServiceAstElement::Dependency(d) => ServiceAstElement::Dependency(d.deep_copy()),
            ServiceAstElement::Function(n, f) => ServiceAstElement::Function(
                n.deep_copy(),
                f.deep_copy(),
            ),
            ServiceAstElement::Event(n, e) => ServiceAstElement::Event(n.deep_copy(), e.deep_copy()),
        }
    }
}

impl DeepCopy for AstElement {
    fn deep_copy(&self) -> (r: AstElement) {
        match self {
            AstElement::Comment(c) => AstElement::Comment(c.deep_copy()),
            AstElement::Import(i) => AstElement::Import(i.deep_copy()),
            AstElement::DataType(n, d) => AstElement::DataType(n.deep_copy(), d.deep_copy()),
            AstElement::Enum(n, e) => AstElement::Enum(n.deep_copy(), e.deep_copy()),
            AstElement::Service(n, body, attrs) => AstElement::Service(
                n.deep_copy(),
                body.deep_copy(),
                attrs.deep_copy(),
            ),
        }
    }
}


// ---------------------------------------------------------------------------
// Accessors
// ---------------------------------------------------------------------------

impl Namespace {
    /// A copy of the `components` field.
    pub fn components(&mut self) -> (r: Vec<String>)
        ensures
            r.deep_view() == old(self).components.deep_view(),
            *final(self) == *old(self),
    {
        self.components.deep_copy()
    }
}

impl Parameter {
    /// A copy of the `name` field.
    pub fn name(&mut self) -> (r: String)
        ensures
            r.deep_view() == old(self).name.deep_view(),
            *final(self) == *old(self),
    {
        self.name.deep_copy()
    }

    /// A copy of the `value` field.
    pub fn value(&mut self) -> (r: Option<String>)
        ensures
            r.deep_view() == old(self).value.deep_view(),
            *final(self) == *old(self),
    {
        self.value.deep_copy()
    }
}

impl Attribute {
    /// A copy of the `name` field.
    pub fn name(&mut self) -> (r: Namespace)
        ensures
            r.deep_view() == old(self).name.deep_view(),
            *final(self) == *old(self),
    {
        self.name.deep_copy()
    }

    /// A copy of the `parameters` field.
    pub fn parameters(&mut self) -> (r: Vec<Parameter>)
        ensures
            r.deep_view() == old(self).parameters.deep_view(),
            *final(self) == *old(self),
    {
        self.parameters.deep_copy()
    }
}

impl TypeName {
    /// A copy of the `typ` field.
    pub fn typ(&mut self) -> (r: Namespace)
        ensures
            r.deep_view() == old(self).typ.deep_view(),
            *final(self) == *old(self),
    {
        self.typ.deep_copy()
    }

    /// A copy of the `is_list` field.
    pub fn is_list(&mut self) -> (r: bool)
        ensures
            r == old(self).is_list,
            *final(self) == *old(self),
    {
        self.is_list
    }

    /// A copy of the `count` field.
    pub fn count(&mut self) -> (r: Option<usize>)
        ensures
            r == old(self).count,
            *final(self) == *old(self),
    {
        self.count
    }

    /// A copy of the `attributes` field.
    pub fn attributes(&mut self) -> (r: Vec<Attribute>)
        ensures
            r.deep_view() == old(self).attributes.deep_view(),
            *final(self) == *old(self),
    {
        self.attributes.deep_copy()
    }
}

impl EnumValue {
    /// A copy of the `value` field.
    pub fn value(&mut self) -> (r: Option<i64>)
        ensures
            r == old(self).value,
            *final(self) == *old(self),
    {
        self.value
    }

    /// A copy of the `attributes` field.
    pub fn attributes(&mut self) -> (r: Vec<Attribute>)
        ensures
            r.deep_view() == old(self).attributes.deep_view(),
            *final(self) == *old(self),
    {
        self.attributes.deep_copy()
    }
}

impl Import {
    /// A copy of the `path` field.
    pub fn path(&mut self) -> (r: Namespace)
        ensures
            r.deep_view() == old(self).path.deep_view(),
            *final(self) == *old(self),
    {
        self.path.deep_copy()
    }

    /// A copy of the `attributes` field.
    pub fn attributes(&mut self) -> (r: Vec<Attribute>)
        ensures
            r.deep_view() == old(self).attributes.deep_view(),
            *final(self) == *old(self),
    {
        self.attributes.deep_copy()
    }
}

impl Dependency {
    /// A copy of the `name` field.
    pub fn name(&mut self) -> (r: Namespace)
        ensures
            r.deep_view() == old(self).name.deep_view(),
            *final(self) == *old(self),
    {
        self.name.deep_copy()
    }

    /// A copy of the `attributes` field.
    pub fn attributes(&mut self) -> (r: Vec<Attribute>)
        ensures
            r.deep_view() == old(self).attributes.deep_view(),
            *final(self) == *old(self),
    {
        self.attributes.deep_copy()
    }
}

impl DataType {
    /// A copy of the `properties` field.
    pub fn properties(&mut self) -> (r: OrderedMap<TypeName>)
        ensures
            r.deep_view() == old(self).properties.deep_view(),
            *final(self) == *old(self),
    {
        self.properties.deep_copy()
    }

    /// A copy of the `attributes` field.
    pub fn attributes(&mut self) -> (r: Vec<Attribute>)
        ensures
            r.deep_view() == old(self).attributes.deep_view(),
            *final(self) == *old(self),
    {
        self.attributes.deep_copy()
    }
}

impl Enum {
    /// A copy of the `values` field.
    pub fn values(&mut self) -> (r: OrderedMap<EnumValue>)
        ensures
            r.deep_view() == old(self).values.deep_view(),
            *final(self) == *old(self),
    {
        self.values.deep_copy()
    }

    /// A copy of the `attributes` field.
    pub fn attributes(&mut self) -> (r: Vec<Attribute>)
        ensures
            r.deep_view() == old(self).attributes.deep_view(),
            *final(self) == *old(self),
    {
        self.attributes.deep_copy()
    }
}

impl Service {
    /// A copy of the `dependencies` field.
    pub fn dependencies(&mut self) -> (r: Vec<Dependency>)
        ensures
            r.deep_view() == old(self).dependencies.deep_view(),
            *final(self) == *old(self),
    {
        self.dependencies.deep_copy()
    }

    /// A copy of the `functions` field.
    pub fn functions(&mut self) -> (r: OrderedMap<Function>)
        ensures
            r.deep_view() == old(self).functions.deep_view(),
            *final(self) == *old(self),
    {
        self.functions.deep_copy()
    }

    /// A copy of the `events` field.
    pub fn events(&mut self) -> (r: OrderedMap<Event>)
        ensures
            r.deep_view() == old(self).events.deep_view(),
            *final(self) == *old(self),
    {
        self.events.deep_copy()
    }

    /// A copy of the `attributes` field.
    pub fn attributes(&mut self) -> (r: Vec<Attribute>)
        ensures
            r.deep_view() == old(self).attributes.deep_view(),
            *final(self) == *old(self),
    {
        self.attributes.deep_copy()
    }
}

impl Function {
    /// A copy of the `arguments` field.
    pub fn arguments(&mut self) -> (r: OrderedMap<TypeName>)
        ensures
            r.deep_view() == old(self).arguments.deep_view(),
            *final(self) == *old(self),
    {
        self.arguments.deep_copy()
    }

    /// A copy of the `return_type` field.
    pub fn return_type(&mut self) -> (r: Option<TypeName>)
        ensures
            r.deep_view() == old(self).return_type.deep_view(),
            *final(self) == *old(self),
    {
        self.return_type.deep_copy()
    }

    /// A copy of the `attributes` field.
    pub fn attributes(&mut self) -> (r: Vec<Attribute>)
        ensures
            r.deep_view() == old(self).attributes.deep_view(),
            *final(self) == *old(self),
    {
        self.attributes.deep_copy()
    }
}

impl Event {
    /// A copy of the `arguments` field.
    pub fn arguments(&mut self) -> (r: OrderedMap<TypeName>)
        ensures
            r.deep_view() == old(self).arguments.deep_view(),
            *final(self) == *old(self),
    {
        self.arguments.deep_copy()
    }

    /// A copy of the `attributes` field.
    pub fn attributes(&mut self) -> (r: Vec<Attribute>)
        ensures
            r.deep_view() == old(self).attributes.deep_view(),
            *final(self) == *old(self),
    {
        self.attributes.deep_copy()
    }
}

impl SsdModule {
    /// A copy of the `namespace` field.
    pub fn namespace(&mut self) -> (r: Namespace)
        ensures
            r.deep_view() == old(self).namespace.deep_view(),
            *final(self) == *old(self),
    {
        self.namespace.deep_copy()
    }

    /// A copy of the `imports` field.
    pub fn imports(&mut self) -> (r: Vec<Import>)
        ensures
            r.deep_view() == old(self).imports.deep_view(),
            *final(self) == *old(self),
    {
        self.imports.deep_copy()
    }

    /// A copy of the `data_types` field.
    pub fn data_types(&mut self) -> (r: OrderedMap<DataType>)
        ensures
            r.deep_view() == old(self).data_types.deep_view(),
            *final(self) == *old(self),
    {
        self.data_types.deep_copy()
    }

    /// A copy of the `enums` field.
    pub fn enums(&mut self) -> (r: OrderedMap<Enum>)
        ensures
            r.deep_view() == old(self).enums.deep_view(),
            *final(self) == *old(self),
    {
        self.enums.deep_copy()
    }

    /// A copy of the `services` field.
    pub fn services(&mut self) -> (r: OrderedMap<Service>)
        ensures
            r.deep_view() == old(self).services.deep_view(),
            *final(self) == *old(self),
    {
        self.services.deep_copy()
    }
}

impl Service {
    /// The functions of the service, under the name they had before `functions`.
    pub fn handlers(&mut self) -> (r: OrderedMap<Function>)
        ensures
            r.deep_view() == old(self).functions.deep_view(),
            *final(self) == *old(self),
    {
        self.functions()
    }
}

// ---------------------------------------------------------------------------
// Constructors
// ---------------------------------------------------------------------------

impl Import {
    pub fn new(path: Namespace, attributes: Vec<Attribute>) -> (r: Import)
        ensures
            r.path == path,
            r.attributes == attributes,
    {
        Import { path, attributes }
    }
}

impl Dependency {
    /// A dependency without comments.
    pub fn new(name: Namespace, attributes: Vec<Attribute>) -> (r: Dependency)
        ensures
            r.name == name,
            r.attributes == attributes,
            r.comments@ == Seq::<String>::empty(),
    {
        Dependency { name, attributes, comments: Vec::new() }
    }
}

impl Attribute {
    /// An attribute with the given `(name, value)` parameters, in order.
    pub fn new(name: Namespace, parameters: Vec<(String, Option<String>)>) -> (r: Attribute)
        ensures
            r.name == name,
            r.parameters.deep_view().len() == parameters@.len(),
            forall|i: int|
                0 <= i < parameters@.len() ==> #[trigger] r.parameters.deep_view()[i] == (
                ParameterModel { name: parameters@[i].0@, value: parameters@[i].1.deep_view() }),
    {
        let mut ps: Vec<Parameter> = Vec::new();
        let mut i: usize = 0;
        while i < parameters.len()
            invariant
                i <= parameters@.len(),
                ps@.len() == i,
                forall|j: int|
                    0 <= j < i ==> #[trigger] ps.deep_view()[j] == (ParameterModel {
                        name: parameters@[j].0@,
                        value: parameters@[j].1.deep_view(),
                    }),
            decreases parameters@.len() - i,
        {
            let p = Parameter { name: parameters[i].0.deep_copy(), value: parameters[i].1.deep_copy() };
            let ghost old_ps = ps.deep_view();
            ps.push(p);
            proof {
                assert(ps.deep_view() =~= old_ps.push(p.deep_view()));
            }
            i = i + 1;
        }
        Attribute { name, parameters: ps }
    }
}

impl DataType {
    pub fn new(properties: OrderedMap<TypeName>, attributes: Vec<Attribute>) -> (r: DataType)
        ensures
            r.properties == properties,
            r.attributes == attributes,
    {
        DataType { properties, attributes }
    }
}

impl Enum {
    pub fn new(values: OrderedMap<EnumValue>, attributes: Vec<Attribute>) -> (r: Enum)
        ensures
            r.values == values,
            r.attributes == attributes,
    {
        Enum { values, attributes }
    }
}

impl Function {
    /// A function without comments.
    pub fn new(
        arguments: OrderedMap<TypeName>,
        return_type: Option<TypeName>,
        attributes: Vec<Attribute>,
    ) -> (r: Function)
        ensures
            r.arguments == arguments,
            r.return_type == return_type,
            r.attributes == attributes,
            r.comments@ == Seq::<String>::empty(),
    {
        Function { arguments, return_type, attributes, comments: Vec::new() }
    }
}

impl Event {
    /// An event without comments.
    pub fn new(arguments: OrderedMap<TypeName>, attributes: Vec<Attribute>) -> (r: Event)
        ensures
            r.arguments == arguments,
            r.attributes == attributes,
            r.comments@ == Seq::<String>::empty(),
    {
        Event { arguments, attributes, comments: Vec::new() }
    }
}

impl Service {
    pub fn new(
        dependencies: Vec<Dependency>,
        functions: OrderedMap<Function>,
        events: OrderedMap<Event>,
        attributes: Vec<Attribute>,
    ) -> (r: Service)
        ensures
            r.dependencies == dependencies,
            r.functions == functions,
            r.events == events,
            r.attributes == attributes,
    {
        Service { dependencies, functions, events, attributes }
    }
}

impl SsdModule {
    pub fn new(
        namespace: Namespace,
        imports: Vec<Import>,
        data_types: OrderedMap<DataType>,
        enums: OrderedMap<Enum>,
        services: OrderedMap<Service>,
    ) -> (r: SsdModule)
        ensures
            r.namespace == namespace,
            r.imports == imports,
            r.data_types == data_types,
            r.enums == enums,
            r.services == services,
    {
        SsdModule { namespace, imports, data_types, enums, services }
    }
}


// ---------------------------------------------------------------------------
// Structural equality
// ---------------------------------------------------------------------------

/// Equality of deep views, decided.
pub trait DeepEq: DeepView + Sized {
    fn deep_eq(&self, other: &Self) -> (r: bool)
        ensures
            r == (self.deep_view() == other.deep_view()),
    ;
}

impl DeepEq for String {
    fn deep_eq(&self, other: &String) -> (r: bool) {
        self.eq(other)
    }
}

impl<T: DeepEq> DeepEq for Option<T> {
    fn deep_eq(&self, other: &Option<T>) -> (r: bool) {
        match (self, other) {
            (Some(a), Some(b)) => a.deep_eq(b),
            (None, None) => true,
            _ => false,
        }
    }
}

impl<A: DeepEq, B: DeepEq> DeepEq for (A, B) {
    fn deep_eq(&self, other: &(A, B)) -> (r: bool) {
        self.0.deep_eq(&other.0) && self.1.deep_eq(&other.1)
    }
}

impl<T: DeepEq> DeepEq for Vec<T> {
    fn deep_eq(&self, other: &Vec<T>) -> (r: bool) {
        slices_deep_eq(self.as_slice(), other.as_slice())
    }
}

/// Whether two slices hold elements with equal deep views, in order.
pub fn slices_deep_eq<T: DeepEq>(a: &[T], b: &[T]) -> (r: bool)
    ensures
        r == (a.deep_view() == b.deep_view()),
{
    if a.len() != b.len() {
        proof {
            assert(a.deep_view().len() != b.deep_view().len());
        }
        return false;
    }
    let mut i: usize = 0;
    while i < a.len()
        invariant
            i <= a@.len(),
            a@.len() == b@.len(),
            forall|j: int| 0 <= j < i ==> a.deep_view()[j] == b.deep_view()[j],
        decreases a@.len() - i,
    {
        if !a[i].deep_eq(&b[i]) {
            proof {
                assert(a.deep_view()[i as int] != b.deep_view()[i as int]);
            }
            return false;
        }
        i = i + 1;
    }
    proof {
        assert(a.deep_view() =~= b.deep_view());
    }
    true
}


impl DeepEq for Namespace {
    fn deep_eq(&self, other: &Namespace) -> (r: bool) {
        self.components.deep_eq(&other.components)
    }
}

impl DeepEq for Parameter {
    fn deep_eq(&self, other: &Parameter) -> (r: bool) {
        self.name.deep_eq(&other.name) && self.value.deep_eq(&other.value)
    }
}

impl DeepEq for Attribute {
    fn deep_eq(&self, other: &Attribute) -> (r: bool) {
        self.name.deep_eq(&other.name) && self.parameters.deep_eq(&other.parameters)
    }
}

impl DeepEq for TypeName {
    fn deep_eq(&self, other: &TypeName) -> (r: bool) {
        self.typ.deep_eq(&other.typ) && self.is_list == other.is_list && (match (self.count, other.count) {
            (Some(x), Some(y)) => x == y,
            (None, None) => true,
            _ => false,
        }) && self.attributes.deep_eq(&other.attributes) && self.comments.deep_eq(&other.comments)
    }
}

impl DeepEq for EnumValue {
    fn deep_eq(&self, other: &EnumValue) -> (r: bool) {
        (match (self.value, other.value) {
            (Some(x), Some(y)) => x == y,
            (None, None) => true,
            _ => false,
        }) && self.attributes.deep_eq(&other.attributes) && self.comments.deep_eq(&other.comments)
    }
}

impl DeepEq for Import {
    fn deep_eq(&self, other: &Import) -> (r: bool) {
        self.path.deep_eq(&other.path) && self.attributes.deep_eq(&other.attributes)
    }
}

impl DeepEq for Dependency {
    fn deep_eq(&self, other: &Dependency) -> (r: bool) {
        self.name.deep_eq(&other.name) && self.attributes.deep_eq(&other.attributes) && self.comments.deep_eq(&other.comments)
    }
}

impl DeepEq for DataType {
    fn deep_eq(&self, other: &DataType) -> (r: bool) {
        self.properties.deep_eq(&other.properties) && self.attributes.deep_eq(&other.attributes)
    }
}

impl DeepEq for Enum {
    fn deep_eq(&self, other: &Enum) -> (r: bool) {
        self.values.deep_eq(&other.values) && self.attributes.deep_eq(&other.attributes)
    }
}

impl DeepEq for Function {
    fn deep_eq(&self, other: &Function) -> (r: bool) {
        self.arguments.deep_eq(&other.arguments) && self.return_type.deep_eq(&other.return_type) && self.attributes.deep_eq(&other.attributes) && self.comments.deep_eq(&other.comments)
    }
}

impl DeepEq for Event {
    fn deep_eq(&self, other: &Event) -> (r: bool) {
        self.arguments.deep_eq(&other.arguments) && self.attributes.deep_eq(&other.attributes) && self.comments.deep_eq(&other.comments)
    }
}

impl DeepEq for Service {
    fn deep_eq(&self, other: &Service) -> (r: bool) {
        self.dependencies.deep_eq(&other.dependencies) && self.functions.deep_eq(&other.functions) && self.events.deep_eq(&other.events) && self.attributes.deep_eq(&other.attributes)
    }
}

impl DeepEq for SsdModule {
    fn deep_eq(&self, other: &SsdModule) -> (r: bool) {
        self.namespace.deep_eq(&other.namespace) && self.imports.deep_eq(&other.imports) && self.data_types.deep_eq(&other.data_types) && self.enums.deep_eq(&other.enums) && self.services.deep_eq(&other.services)
    }
}

impl DeepEq for ServiceAstElement {
    fn deep_eq(&self, other: &ServiceAstElement) -> (r: bool) {
        match (self, other) {
            (ServiceAstElement::Comment(a), ServiceAstElement::Comment(b)) => a.deep_eq(b),
            (ServiceAstElement::Dependency(a), ServiceAstElement::Dependency(b)) => a.deep_eq(b),
            (ServiceAstElement::Function(n, a), ServiceAstElement::Function(m, b)) => n.deep_eq(m)
                && a.deep_eq(b),
            (ServiceAstElement::Event(n, a), ServiceAstElement::Event(m, b)) => n.deep_eq(m)
                && a.deep_eq(b),
            _ => false,
        }
    }
}

} // verus!
