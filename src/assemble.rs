//! Assembly: folding the raw elements of a file into a module whose
//! declarations are keyed by unique names, with each run of comments attached
//! to the declaration that follows it.

use vstd::prelude::*;

use crate::ast::{
    AstElement, Attribute, DataType, DeepCopy, Dependency, DependencyModel, ElementModel, Enum,
    Event, EventModel, Function, FunctionModel, Import, ModuleModel, Namespace, Service,
    ServiceAstElement, ServiceElementModel, ServiceModel, SsdModule, AttributeModel, copy_slice,
};
use crate::error::{DeclarationKind, ErrorKindModel, ParseError, ParseErrorModel, ParseErrorType};
use crate::parser::parse_model;

verus! {

/// Some entry of `m` has the name `k`.
pub open spec fn has_key<V>(m: Seq<(Seq<char>, V)>, k: Seq<char>) -> bool {
    exists|i: int| 0 <= i < m.len() && #[trigger] m[i].0 == k
}

/// The error for a second declaration named `name` among those of `kind`.
pub open spec fn duplicate_error(kind: DeclarationKind, name: Seq<char>) -> ParseErrorModel {
    ParseErrorModel { kind: ErrorKindModel::DuplicateDeclaration(kind, name), span: name }
}

/// The service body folded from element `i` on, into `acc`, with `buf` the
/// comments not yet attached.
pub open spec fn fold_service(
    els: Seq<ServiceElementModel>,
    i: int,
    acc: ServiceModel,
    buf: Seq<Seq<char>>,
) -> Result<ServiceModel, ParseErrorModel>
    decreases els.len() - i,
{
    if 0 <= i < els.len() {
        match els[i] {
            ServiceElementModel::Comment(c) => fold_service(els, i + 1, acc, buf.push(c)),
            ServiceElementModel::Dependency(d) => fold_service(
                els,
                i + 1,
                ServiceModel {
                    dependencies: acc.dependencies.push(
                        DependencyModel { comments: d.comments + buf, ..d },
                    ),
                    ..acc
                },
                Seq::empty(),
            ),
            ServiceElementModel::Function(n, f) => if has_key(acc.functions, n) {
                Err(duplicate_error(DeclarationKind::Function, n))
            } else {
                fold_service(
                    els,
                    i + 1,
                    ServiceModel {
                        functions: acc.functions.push(
                            (n, FunctionModel { comments: f.comments + buf, ..f }),
                        ),
                        ..acc
                    },
                    Seq::empty(),
                )
            },
            ServiceElementModel::Event(n, e) => if has_key(acc.events, n) {
                Err(duplicate_error(DeclarationKind::Event, n))
            } else {
                fold_service(
                    els,
                    i + 1,
                    ServiceModel {
                        events: acc.events.push((n, EventModel { comments: e.comments + buf, ..e })),
                        ..acc
                    },
                    Seq::empty(),
                )
            },
        }
    } else {
        Ok(acc)
    }
}

/// The service that a raw body assembles to: dependencies in order; functions
/// and events keyed by unique names; each run of comments attached to the
/// declaration after it. A second function or event of one name is an error.
pub open spec fn assemble_service_model(
    els: Seq<ServiceElementModel>,
    attributes: Seq<AttributeModel>,
) -> Result<ServiceModel, ParseErrorModel> {
    fold_service(
        els,
        0,
        ServiceModel {
            dependencies: Seq::empty(),
            functions: Seq::empty(),
            events: Seq::empty(),
            attributes,
        },
        Seq::empty(),
    )
}

/// The module folded from element `i` on, into `acc`.
pub open spec fn fold_module(els: Seq<ElementModel>, i: int, acc: ModuleModel) -> Result<
    ModuleModel,
    ParseErrorModel,
>
    decreases els.len() - i,
{
    if 0 <= i < els.len() {
        match els[i] {
            ElementModel::Comment(_) => fold_module(els, i + 1, acc),
            ElementModel::Import(im) => fold_module(
                els,
                i + 1,
                ModuleModel { imports: acc.imports.push(im), ..acc },
            ),
            ElementModel::DataType(n, d) => if has_key(acc.data_types, n) {
                Err(duplicate_error(DeclarationKind::DataType, n))
            } else {
                fold_module(els, i + 1, ModuleModel { data_types: acc.data_types.push((n, d)), ..acc })
            },
            ElementModel::Enum(n, e) => if has_key(acc.enums, n) {
                Err(duplicate_error(DeclarationKind::Enum, n))
            } else {
                fold_module(els, i + 1, ModuleModel { enums: acc.enums.push((n, e)), ..acc })
            },
            ElementModel::Service(n, body, attrs) => if has_key(acc.services, n) {
                Err(duplicate_error(DeclarationKind::Service, n))
            } else {
                match assemble_service_model(body, attrs) {
                    Err(x) => Err(x),
                    Ok(sv) => fold_module(
                        els,
                        i + 1,
                        ModuleModel { services: acc.services.push((n, sv)), ..acc },
                    ),
                }
            },
        }
    } else {
        Ok(acc)
    }
}

/// The module that the raw elements of a file assemble to, under `namespace`.
pub open spec fn assemble_model(namespace: Seq<Seq<char>>, els: Seq<ElementModel>) -> Result<
    ModuleModel,
    ParseErrorModel,
> {
    fold_module(
        els,
        0,
        ModuleModel {
            namespace,
            imports: Seq::empty(),
            data_types: Seq::empty(),
            enums: Seq::empty(),
            services: Seq::empty(),
        },
    )
}

/// Whether some entry of `m` is named `k`.
pub fn contains_name<T: DeepView>(m: &Vec<(String, T)>, k: &String) -> (r: bool)
    ensures
        r == has_key(m.deep_view(), k@),
{
    let mut i: usize = 0;
    while i < m.len()
        invariant
            i <= m@.len(),
            forall|j: int| 0 <= j < i ==> m.deep_view()[j].0 != k@,
        decreases m@.len() - i,
    {
        if m[i].0.eq(k) {
            proof {
                assert(m.deep_view()[i as int].0 == k@);
            }
            return true;
        }
        i = i + 1;
    }
    false
}

fn duplicate(kind: DeclarationKind, name: &String) -> (r: ParseError)
    ensures
        r.deep_view() == duplicate_error(kind, name@),
{
    ParseError {
        error_type: ParseErrorType::DuplicateDeclaration(kind, name.deep_copy()),
        span: name.deep_copy(),
    }
}

/// Assembles a raw service body with the service's attributes.
pub fn raw_service_to_service(raw: &[ServiceAstElement], attributes: &[Attribute]) -> (r: Result<
    Service,
    ParseError,
>)
    ensures
        match assemble_service_model(raw.deep_view(), attributes.deep_view()) {
            Ok(m) => r is Ok && r->Ok_0.deep_view() == m,
            Err(x) => r is Err && r->Err_0.deep_view() == x,
        },
{
    let mut service = Service {
        dependencies: Vec::new(),
        functions: Vec::new(),
        events: Vec::new(),
        attributes: copy_slice(attributes),
    };
    let mut buf: Vec<String> = Vec::new();
    let ghost els = raw.deep_view();
    proof {
        assert(service.dependencies.deep_view() =~= Seq::<DependencyModel>::empty());
        assert(service.functions.deep_view() =~= Seq::<(Seq<char>, FunctionModel)>::empty());
        assert(service.events.deep_view() =~= Seq::<(Seq<char>, EventModel)>::empty());
        assert(service.deep_view() == ServiceModel {
            dependencies: Seq::empty(),
            functions: Seq::empty(),
            events: Seq::empty(),
            attributes: attributes.deep_view(),
        });
        assert(buf.deep_view() =~= Seq::<Seq<char>>::empty());
    }
    let mut i: usize = 0;
    while i < raw.len()
        invariant
            i <= raw@.len(),
            els == raw.deep_view(),
            assemble_service_model(els, attributes.deep_view()) == fold_service(
                els,
                i as int,
                service.deep_view(),
                buf.deep_view(),
            ),
        decreases raw@.len() - i,
    {
        let ghost old_service = service.deep_view();
        let ghost old_buf = buf.deep_view();
        match &raw[i] {
            ServiceAstElement::Comment(c) => {
                buf.push(c.deep_copy());
                proof {
                    assert(buf.deep_view() =~= old_buf.push(c@));
                }
            },
            ServiceAstElement::Dependency(d) => {
                let d = d.deep_copy().with_comments(&mut buf);
                service.dependencies.push(d);
                proof {
                    assert(buf.deep_view() =~= Seq::<Seq<char>>::empty());
                    assert(service.deep_view().dependencies =~= old_service.dependencies.push(
                        d.deep_view(),
                    ));
                    assert(service.deep_view() =~= ServiceModel {
                        dependencies: old_service.dependencies.push(d.deep_view()),
                        ..old_service
                    });
                }
            },
            ServiceAstElement::Function(n, f) => {
                if contains_name(&service.functions, n) {
                    return Err(duplicate(DeclarationKind::Function, n));
                }
                let f = f.deep_copy().with_comments(&mut buf);
                let ghost entry = (n@, f.deep_view());
                service.functions.push((n.deep_copy(), f));
                proof {
                    assert(buf.deep_view() =~= Seq::<Seq<char>>::empty());
                    assert(service.deep_view().functions =~= old_service.functions.push(entry));
                    assert(service.deep_view() =~= ServiceModel {
                        functions: old_service.functions.push(entry),
                        ..old_service
                    });
                }
            },
            ServiceAstElement::Event(n, e) => {
                if contains_name(&service.events, n) {
                    return Err(duplicate(DeclarationKind::Event, n));
                }
                let e = e.deep_copy().with_comments(&mut buf);
                let ghost entry = (n@, e.deep_view());
                service.events.push((n.deep_copy(), e));
                proof {
                    assert(buf.deep_view() =~= Seq::<Seq<char>>::empty());
                    assert(service.deep_view().events =~= old_service.events.push(entry));
                    assert(service.deep_view() =~= ServiceModel {
                        events: old_service.events.push(entry),
                        ..old_service
                    });
                }
            },
        }
        i = i + 1;
    }
    Ok(service)
}

/// Assembles the raw elements of a file into a module under `namespace`.
pub fn raw_to_ssd_file(namespace: Namespace, raw: &[AstElement]) -> (r: Result<SsdModule, ParseError>)
    ensures
        match assemble_model(namespace.deep_view(), raw.deep_view()) {
            Ok(m) => r is Ok && r->Ok_0.deep_view() == m,
            Err(x) => r is Err && r->Err_0.deep_view() == x,
        },
{
    let mut module = SsdModule {
        namespace,
        imports: Vec::new(),
        data_types: Vec::new(),
        enums: Vec::new(),
        services: Vec::new(),
    };
    let ghost els = raw.deep_view();
    proof {
        assert(module.imports.deep_view() =~= Seq::<crate::ast::ImportModel>::empty());
        assert(module.data_types.deep_view() =~= Seq::<(Seq<char>, crate::ast::DataTypeModel)>::empty());
        assert(module.enums.deep_view() =~= Seq::<(Seq<char>, crate::ast::EnumModel)>::empty());
        assert(module.services.deep_view() =~= Seq::<(Seq<char>, ServiceModel)>::empty());
    }
    let mut i: usize = 0;
    while i < raw.len()
        invariant
            i <= raw@.len(),
            els == raw.deep_view(),
            assemble_model(namespace.deep_view(), els) == fold_module(
                els,
                i as int,
                module.deep_view(),
            ),
        decreases raw@.len() - i,
    {
        let ghost old_module = module.deep_view();
        match &raw[i] {
            AstElement::Comment(_) => {},
            AstElement::Import(im) => {
                let im = im.deep_copy();
                let ghost entry = im.deep_view();
                module.imports.push(im);
                proof {
                    assert(module.deep_view().imports =~= old_module.imports.push(entry));
                    assert(module.deep_view() =~= ModuleModel {
                        imports: old_module.imports.push(entry),
                        ..old_module
                    });
                }
            },
            AstElement::DataType(n, d) => {
                if contains_name(&module.data_types, n) {
                    return Err(duplicate(DeclarationKind::DataType, n));
                }
                let entry_v = (n.deep_copy(), d.deep_copy());
                let ghost entry = entry_v.deep_view();
                module.data_types.push(entry_v);
                proof {
                    assert(module.deep_view().data_types =~= old_module.data_types.push(entry));
                    assert(module.deep_view() =~= ModuleModel {
                        data_types: old_module.data_types.push(entry),
                        ..old_module
                    });
                }
            },
            AstElement::Enum(n, e) => {
                if contains_name(&module.enums, n) {
                    return Err(duplicate(DeclarationKind::Enum, n));
                }
                let entry_v = (n.deep_copy(), e.deep_copy());
                let ghost entry = entry_v.deep_view();
                module.enums.push(entry_v);
                proof {
                    assert(module.deep_view().enums =~= old_module.enums.push(entry));
                    assert(module.deep_view() =~= ModuleModel {
                        enums: old_module.enums.push(entry),
                        ..old_module
                    });
                }
            },
            AstElement::Service(n, body, attrs) => {
                if contains_name(&module.services, n) {
                    return Err(duplicate(DeclarationKind::Service, n));
                }
                let sv = match raw_service_to_service(body.as_slice(), attrs.as_slice()) {
                    Ok(sv) => sv,
                    Err(x) => {
                        return Err(x);
                    },
                };
                let entry_v = (n.deep_copy(), sv);
                let ghost entry = entry_v.deep_view();
                module.services.push(entry_v);
                proof {
                    assert(module.deep_view().services =~= old_module.services.push(entry));
                    assert(module.deep_view() =~= ModuleModel {
                        services: old_module.services.push(entry),
                        ..old_module
                    });
                }
            },
        }
        i = i + 1;
    }
    Ok(module)
}

/// Parses `content` and assembles it into a module under `namespace`.
pub fn parse(content: &str, namespace: Namespace) -> (r: Result<SsdModule, ParseError>)
    ensures
        match parse_model(content@) {
            Ok(els) => match assemble_model(namespace.deep_view(), els) {
                Ok(m) => r is Ok && r->Ok_0.deep_view() == m,
                Err(x) => r is Err && r->Err_0.deep_view() == x,
            },
            Err(x) => r is Err && r->Err_0.deep_view() == x,
        },
{
    let raw = match crate::parser::parse_raw(content) {
        Ok(raw) => raw,
        Err(x) => {
            return Err(x);
        },
    };
    raw_to_ssd_file(namespace, raw.as_slice())
}

} // verus!
