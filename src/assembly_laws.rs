//! Laws of assembly: it fails exactly when a name repeats among the data
//! types, enums or services of a file, or among the functions or events of one
//! service, and then with a duplicate-declaration error.

use vstd::prelude::*;

use crate::assemble::{assemble_model, assemble_service_model, fold_module, fold_service, has_key};
use crate::ast::{
    AttributeModel, DependencyModel, ElementModel, EventModel, FunctionModel, ModuleModel,
    ServiceElementModel, ServiceModel,
};
use crate::error::DeclarationKind;

verus! {

/// The name of `el` when it declares a data type, enum or service of `kind`.
pub open spec fn declared_name(el: ElementModel, kind: DeclarationKind) -> Option<Seq<char>> {
    match (el, kind) {
        (ElementModel::DataType(n, _), DeclarationKind::DataType) => Some(n),
        (ElementModel::Enum(n, _), DeclarationKind::Enum) => Some(n),
        (ElementModel::Service(n, _, _), DeclarationKind::Service) => Some(n),
        _ => None,
    }
}

/// `n` is among the declarations of `kind` folded into `acc`.
pub open spec fn has_declared(acc: ModuleModel, kind: DeclarationKind, n: Seq<char>) -> bool {
    match kind {
        DeclarationKind::DataType => has_key(acc.data_types, n),
        DeclarationKind::Enum => has_key(acc.enums, n),
        DeclarationKind::Service => has_key(acc.services, n),
        _ => false,
    }
}

pub proof fn lemma_has_key_push<V>(m: Seq<(Seq<char>, V)>, x: (Seq<char>, V), n: Seq<char>)
    requires
        has_key(m, n),
    ensures
        has_key(m.push(x), n),
{
    let w = choose|k: int| 0 <= k < m.len() && #[trigger] m[k].0 == n;
    assert(m.push(x)[w].0 == n);
}

pub proof fn lemma_has_key_last<V>(m: Seq<(Seq<char>, V)>, x: (Seq<char>, V))
    ensures
        has_key(m.push(x), x.0),
{
    assert(m.push(x)[m.len() as int].0 == x.0);
}

/// Once a name is among the declarations of its kind folded so far, a later
/// declaration of that kind and name makes the fold fail.
pub proof fn lemma_fold_meets_duplicate(
    els: Seq<ElementModel>,
    p: int,
    acc: ModuleModel,
    j: int,
    n: Seq<char>,
    kind: DeclarationKind,
)
    requires
        0 <= p <= j < els.len(),
        declared_name(els[j], kind) == Some(n),
        has_declared(acc, kind, n),
    ensures
        fold_module(els, p, acc) is Err,
    decreases j - p,
{
    if p < j {
        match els[p] {
            ElementModel::Comment(_) => {
                lemma_fold_meets_duplicate(els, p + 1, acc, j, n, kind);
            },
            ElementModel::Import(im) => {
                let acc2 = ModuleModel { imports: acc.imports.push(im), ..acc };
                lemma_fold_meets_duplicate(els, p + 1, acc2, j, n, kind);
            },
            ElementModel::DataType(m, d) => {
                if !has_key(acc.data_types, m) {
                    let acc2 = ModuleModel { data_types: acc.data_types.push((m, d)), ..acc };
                    if kind == DeclarationKind::DataType {
                        lemma_has_key_push(acc.data_types, (m, d), n);
                    }
                    lemma_fold_meets_duplicate(els, p + 1, acc2, j, n, kind);
                }
            },
            ElementModel::Enum(m, e) => {
                if !has_key(acc.enums, m) {
                    let acc2 = ModuleModel { enums: acc.enums.push((m, e)), ..acc };
                    if kind == DeclarationKind::Enum {
                        lemma_has_key_push(acc.enums, (m, e), n);
                    }
                    lemma_fold_meets_duplicate(els, p + 1, acc2, j, n, kind);
                }
            },
            ElementModel::Service(m, body, attrs) => {
                if !has_key(acc.services, m) {
                    match assemble_service_model(body, attrs) {
                        Ok(sv) => {
                            let acc2 = ModuleModel { services: acc.services.push((m, sv)), ..acc };
                            if kind == DeclarationKind::Service {
                                lemma_has_key_push(acc.services, (m, sv), n);
                            }
                            lemma_fold_meets_duplicate(els, p + 1, acc2, j, n, kind);
                        },
                        Err(_) => {},
                    }
                }
            },
        }
    }
}

pub proof fn lemma_fold_reaches_duplicate(
    els: Seq<ElementModel>,
    p: int,
    acc: ModuleModel,
    i: int,
    j: int,
    n: Seq<char>,
    kind: DeclarationKind,
)
    requires
        0 <= p <= i < j < els.len(),
        declared_name(els[i], kind) == Some(n),
        declared_name(els[j], kind) == Some(n),
    ensures
        fold_module(els, p, acc) is Err,
    decreases i - p,
{
    match els[p] {
        ElementModel::Comment(_) => {
            lemma_fold_reaches_duplicate(els, p + 1, acc, i, j, n, kind);
        },
        ElementModel::Import(im) => {
            let acc2 = ModuleModel { imports: acc.imports.push(im), ..acc };
            lemma_fold_reaches_duplicate(els, p + 1, acc2, i, j, n, kind);
        },
        ElementModel::DataType(m, d) => {
            if !has_key(acc.data_types, m) {
                let acc2 = ModuleModel { data_types: acc.data_types.push((m, d)), ..acc };
                if p < i {
                    lemma_fold_reaches_duplicate(els, p + 1, acc2, i, j, n, kind);
                } else {
                    lemma_has_key_last(acc.data_types, (m, d));
                    lemma_fold_meets_duplicate(els, p + 1, acc2, j, n, kind);
                }
            }
        },
        ElementModel::Enum(m, e) => {
            if !has_key(acc.enums, m) {
                let acc2 = ModuleModel { enums: acc.enums.push((m, e)), ..acc };
                if p < i {
                    lemma_fold_reaches_duplicate(els, p + 1, acc2, i, j, n, kind);
                } else {
                    lemma_has_key_last(acc.enums, (m, e));
                    lemma_fold_meets_duplicate(els, p + 1, acc2, j, n, kind);
                }
            }
        },
        ElementModel::Service(m, body, attrs) => {
            if !has_key(acc.services, m) {
                match assemble_service_model(body, attrs) {
                    Ok(sv) => {
                        let acc2 = ModuleModel { services: acc.services.push((m, sv)), ..acc };
                        if p < i {
                            lemma_fold_reaches_duplicate(els, p + 1, acc2, i, j, n, kind);
                        } else {
                            lemma_has_key_last(acc.services, (m, sv));
                            lemma_fold_meets_duplicate(els, p + 1, acc2, j, n, kind);
                        }
                    },
                    Err(_) => {},
                }
            }
        },
    }
}

/// Two data types, two enums or two services of one name make assembly fail:
/// a duplicate is never silently overwritten.
pub proof fn lemma_duplicate_declarations_rejected(
    namespace: Seq<Seq<char>>,
    els: Seq<ElementModel>,
    i: int,
    j: int,
    kind: DeclarationKind,
)
    requires
        0 <= i < j < els.len(),
        declared_name(els[i], kind) is Some,
        declared_name(els[i], kind) == declared_name(els[j], kind),
    ensures
        assemble_model(namespace, els) is Err,
{
    lemma_fold_reaches_duplicate(
        els,
        0,
        ModuleModel {
            namespace,
            imports: Seq::empty(),
            data_types: Seq::empty(),
            enums: Seq::empty(),
            services: Seq::empty(),
        },
        i,
        j,
        declared_name(els[i], kind)->Some_0,
        kind,
    );
}

/// The name of a service element when it declares a function (`events` false)
/// or an event (`events` true).
pub open spec fn member_name(el: ServiceElementModel, events: bool) -> Option<Seq<char>> {
    match el {
        ServiceElementModel::Function(n, _) => if events {
            None
        } else {
            Some(n)
        },
        ServiceElementModel::Event(n, _) => if events {
            Some(n)
        } else {
            None
        },
        _ => None,
    }
}

pub open spec fn has_member(acc: ServiceModel, events: bool, n: Seq<char>) -> bool {
    if events {
        has_key(acc.events, n)
    } else {
        has_key(acc.functions, n)
    }
}

pub proof fn lemma_service_meets_duplicate(
    els: Seq<ServiceElementModel>,
    p: int,
    acc: ServiceModel,
    buf: Seq<Seq<char>>,
    j: int,
    n: Seq<char>,
    events: bool,
)
    requires
        0 <= p <= j < els.len(),
        member_name(els[j], events) == Some(n),
        has_member(acc, events, n),
    ensures
        fold_service(els, p, acc, buf) is Err,
    decreases j - p,
{
    if p < j {
        match els[p] {
            ServiceElementModel::Comment(c) => {
                lemma_service_meets_duplicate(els, p + 1, acc, buf.push(c), j, n, events);
            },
            ServiceElementModel::Dependency(d) => {
                let acc2 = ServiceModel {
                    dependencies: acc.dependencies.push(DependencyModel { comments: d.comments + buf, ..d }),
                    ..acc
                };
                lemma_service_meets_duplicate(els, p + 1, acc2, Seq::empty(), j, n, events);
            },
            ServiceElementModel::Function(m, f) => {
                if !has_key(acc.functions, m) {
                    let x = (m, FunctionModel { comments: f.comments + buf, ..f });
                    let acc2 = ServiceModel { functions: acc.functions.push(x), ..acc };
                    if !events {
                        lemma_has_key_push(acc.functions, x, n);
                    }
                    lemma_service_meets_duplicate(els, p + 1, acc2, Seq::empty(), j, n, events);
                }
            },
            ServiceElementModel::Event(m, e) => {
                if !has_key(acc.events, m) {
                    let x = (m, EventModel { comments: e.comments + buf, ..e });
                    let acc2 = ServiceModel { events: acc.events.push(x), ..acc };
                    if events {
                        lemma_has_key_push(acc.events, x, n);
                    }
                    lemma_service_meets_duplicate(els, p + 1, acc2, Seq::empty(), j, n, events);
                }
            },
        }
    }
}

pub proof fn lemma_service_reaches_duplicate(
    els: Seq<ServiceElementModel>,
    p: int,
    acc: ServiceModel,
    buf: Seq<Seq<char>>,
    i: int,
    j: int,
    n: Seq<char>,
    events: bool,
)
    requires
        0 <= p <= i < j < els.len(),
        member_name(els[i], events) == Some(n),
        member_name(els[j], events) == Some(n),
    ensures
        fold_service(els, p, acc, buf) is Err,
    decreases i - p,
{
    match els[p] {
        ServiceElementModel::Comment(c) => {
            lemma_service_reaches_duplicate(els, p + 1, acc, buf.push(c), i, j, n, events);
        },
        ServiceElementModel::Dependency(d) => {
            let acc2 = ServiceModel {
                dependencies: acc.dependencies.push(DependencyModel { comments: d.comments + buf, ..d }),
                ..acc
            };
            lemma_service_reaches_duplicate(els, p + 1, acc2, Seq::empty(), i, j, n, events);
        },
        ServiceElementModel::Function(m, f) => {
            if !has_key(acc.functions, m) {
                let x = (m, FunctionModel { comments: f.comments + buf, ..f });
                let acc2 = ServiceModel { functions: acc.functions.push(x), ..acc };
                if p < i {
                    lemma_service_reaches_duplicate(els, p + 1, acc2, Seq::empty(), i, j, n, events);
                } else {
                    lemma_has_key_last(acc.functions, x);
                    lemma_service_meets_duplicate(els, p + 1, acc2, Seq::empty(), j, n, events);
                }
            }
        },
        ServiceElementModel::Event(m, e) => {
            if !has_key(acc.events, m) {
                let x = (m, EventModel { comments: e.comments + buf, ..e });
                let acc2 = ServiceModel { events: acc.events.push(x), ..acc };
                if p < i {
                    lemma_service_reaches_duplicate(els, p + 1, acc2, Seq::empty(), i, j, n, events);
                } else {
                    lemma_has_key_last(acc.events, x);
                    lemma_service_meets_duplicate(els, p + 1, acc2, Seq::empty(), j, n, events);
                }
            }
        },
    }
}

/// Two functions, or two events, of one name in a service body make the
/// service fail to assemble, and so the module that holds it.
pub proof fn lemma_duplicate_members_rejected(
    body: Seq<ServiceElementModel>,
    attrs: Seq<AttributeModel>,
    i: int,
    j: int,
    events: bool,
)
    requires
        0 <= i < j < body.len(),
        member_name(body[i], events) is Some,
        member_name(body[i], events) == member_name(body[j], events),
    ensures
        assemble_service_model(body, attrs) is Err,
{
    lemma_service_reaches_duplicate(
        body,
        0,
        ServiceModel {
            dependencies: Seq::empty(),
            functions: Seq::empty(),
            events: Seq::empty(),
            attributes: attrs,
        },
        Seq::empty(),
        i,
        j,
        member_name(body[i], events)->Some_0,
        events,
    );
}

pub proof fn lemma_has_key_push_inv<V>(m: Seq<(Seq<char>, V)>, x: (Seq<char>, V), n: Seq<char>)
    requires
        has_key(m.push(x), n),
    ensures
        has_key(m, n) || x.0 == n,
{
    let w = choose|k: int| 0 <= k < m.push(x).len() && #[trigger] m.push(x)[k].0 == n;
    if w < m.len() {
        assert(m[w].0 == n);
    }
}

/// No function and no event name repeats in a service body.
pub open spec fn distinct_members(body: Seq<ServiceElementModel>) -> bool {
    forall|i: int, j: int, ev: bool|
        0 <= i < j < body.len() && (#[trigger] member_name(body[i], ev)) is Some
            ==> member_name(body[i], ev) != #[trigger] member_name(body[j], ev)
}

/// No data type, enum or service name repeats, and no service body repeats a
/// function or event name.
pub open spec fn distinct_declarations(els: Seq<ElementModel>) -> bool {
    &&& forall|i: int, j: int, k: DeclarationKind|
        0 <= i < j < els.len() && (#[trigger] declared_name(els[i], k)) is Some
            ==> declared_name(els[i], k) != #[trigger] declared_name(els[j], k)
    &&& forall|i: int|
        0 <= i < els.len() && (#[trigger] els[i]) is Service ==> distinct_members(
            els[i]->Service_1,
        )
}

pub open spec fn member_before(body: Seq<ServiceElementModel>, p: int, ev: bool, n: Seq<char>) -> bool {
    exists|i: int| 0 <= i < p && #[trigger] member_name(body[i], ev) == Some(n)
}

pub proof fn lemma_service_without_duplicates(
    body: Seq<ServiceElementModel>,
    p: int,
    acc: ServiceModel,
    buf: Seq<Seq<char>>,
)
    requires
        0 <= p <= body.len(),
        distinct_members(body),
        forall|ev: bool, n: Seq<char>|
            #[trigger] has_member(acc, ev, n) ==> member_before(body, p, ev, n),
    ensures
        fold_service(body, p, acc, buf) is Ok,
    decreases body.len() - p,
{
    if p < body.len() {
        match body[p] {
            ServiceElementModel::Comment(c) => {
                assert forall|ev: bool, n: Seq<char>| #[trigger] has_member(acc, ev, n) implies member_before(
                    body,
                    p + 1,
                    ev,
                    n,
                ) by {
                    let i = choose|i: int| 0 <= i < p && #[trigger] member_name(body[i], ev) == Some(n);
                    assert(member_name(body[i], ev) == Some(n));
                }
                lemma_service_without_duplicates(body, p + 1, acc, buf.push(c));
            },
            ServiceElementModel::Dependency(d) => {
                let acc2 = ServiceModel {
                    dependencies: acc.dependencies.push(DependencyModel { comments: d.comments + buf, ..d }),
                    ..acc
                };
                assert forall|ev: bool, n: Seq<char>| #[trigger] has_member(acc2, ev, n) implies member_before(
                    body,
                    p + 1,
                    ev,
                    n,
                ) by {
                    assert(has_member(acc, ev, n));
                    let i = choose|i: int| 0 <= i < p && #[trigger] member_name(body[i], ev) == Some(n);
                    assert(member_name(body[i], ev) == Some(n));
                }
                lemma_service_without_duplicates(body, p + 1, acc2, Seq::empty());
            },
            ServiceElementModel::Function(m, f) => {
                if has_key(acc.functions, m) {
                    assert(has_member(acc, false, m));
                    let i = choose|i: int| 0 <= i < p && #[trigger] member_name(body[i], false) == Some(m);
                    assert(member_name(body[i], false) == Some(m));
                    assert(member_name(body[p], false) == Some(m));
                    assert(false);
                }
                let x = (m, FunctionModel { comments: f.comments + buf, ..f });
                let acc2 = ServiceModel { functions: acc.functions.push(x), ..acc };
                assert forall|ev: bool, n: Seq<char>| #[trigger] has_member(acc2, ev, n) implies member_before(
                    body,
                    p + 1,
                    ev,
                    n,
                ) by {
                    if !ev {
                        lemma_has_key_push_inv(acc.functions, x, n);
                        if n == m {
                            assert(member_name(body[p], false) == Some(n));
                        } else {
                            assert(has_member(acc, ev, n));
                            let i = choose|i: int| 0 <= i < p && #[trigger] member_name(body[i], ev) == Some(n);
                            assert(member_name(body[i], ev) == Some(n));
                        }
                    } else {
                        assert(has_member(acc, ev, n));
                        let i = choose|i: int| 0 <= i < p && #[trigger] member_name(body[i], ev) == Some(n);
                        assert(member_name(body[i], ev) == Some(n));
                    }
                }
                lemma_service_without_duplicates(body, p + 1, acc2, Seq::empty());
            },
            ServiceElementModel::Event(m, e) => {
                if has_key(acc.events, m) {
                    assert(has_member(acc, true, m));
                    let i = choose|i: int| 0 <= i < p && #[trigger] member_name(body[i], true) == Some(m);
                    assert(member_name(body[i], true) == Some(m));
                    assert(member_name(body[p], true) == Some(m));
                    assert(false);
                }
                let x = (m, EventModel { comments: e.comments + buf, ..e });
                let acc2 = ServiceModel { events: acc.events.push(x), ..acc };
                assert forall|ev: bool, n: Seq<char>| #[trigger] has_member(acc2, ev, n) implies member_before(
                    body,
                    p + 1,
                    ev,
                    n,
                ) by {
                    if ev {
                        lemma_has_key_push_inv(acc.events, x, n);
                        if n == m {
                            assert(member_name(body[p], true) == Some(n));
                        } else {
                            assert(has_member(acc, ev, n));
                            let i = choose|i: int| 0 <= i < p && #[trigger] member_name(body[i], ev) == Some(n);
                            assert(member_name(body[i], ev) == Some(n));
                        }
                    } else {
                        assert(has_member(acc, ev, n));
                        let i = choose|i: int| 0 <= i < p && #[trigger] member_name(body[i], ev) == Some(n);
                        assert(member_name(body[i], ev) == Some(n));
                    }
                }
                lemma_service_without_duplicates(body, p + 1, acc2, Seq::empty());
            },
        }
    }
}

/// A service body that repeats no function or event name assembles.
pub proof fn lemma_distinct_members_assemble(body: Seq<ServiceElementModel>, attrs: Seq<AttributeModel>)
    requires
        distinct_members(body),
    ensures
        assemble_service_model(body, attrs) is Ok,
{
    let acc = ServiceModel {
        dependencies: Seq::empty(),
        functions: Seq::empty(),
        events: Seq::empty(),
        attributes: attrs,
    };
    assert forall|ev: bool, n: Seq<char>| #[trigger] has_member(acc, ev, n) implies member_before(
        body,
        0,
        ev,
        n,
    ) by {
        if ev {
            let w = choose|k: int| 0 <= k < acc.events.len() && #[trigger] acc.events[k].0 == n;
        } else {
            let w = choose|k: int| 0 <= k < acc.functions.len() && #[trigger] acc.functions[k].0 == n;
        }
    }
    lemma_service_without_duplicates(body, 0, acc, Seq::empty());
}

pub open spec fn declared_before(els: Seq<ElementModel>, p: int, k: DeclarationKind, n: Seq<char>) -> bool {
    exists|i: int| 0 <= i < p && #[trigger] declared_name(els[i], k) == Some(n)
}

/// Keeps "every name folded so far was declared before `p`" across one element.
pub proof fn lemma_declared_step(
    els: Seq<ElementModel>,
    p: int,
    acc: ModuleModel,
    acc2: ModuleModel,
)
    requires
        0 <= p < els.len(),
        forall|k: DeclarationKind, n: Seq<char>|
            #[trigger] has_declared(acc, k, n) ==> declared_before(els, p, k, n),
        forall|k: DeclarationKind, n: Seq<char>|
            #[trigger] has_declared(acc2, k, n) ==> has_declared(acc, k, n) || declared_name(els[p], k)
                == Some(n),
    ensures
        forall|k: DeclarationKind, n: Seq<char>|
            #[trigger] has_declared(acc2, k, n) ==> declared_before(els, p + 1, k, n),
{
    assert forall|k: DeclarationKind, n: Seq<char>| #[trigger] has_declared(acc2, k, n) implies declared_before(
        els,
        p + 1,
        k,
        n,
    ) by {
        if has_declared(acc, k, n) {
            let i = choose|i: int| 0 <= i < p && #[trigger] declared_name(els[i], k) == Some(n);
            assert(declared_name(els[i], k) == Some(n));
        } else {
            assert(declared_name(els[p], k) == Some(n));
        }
    }
}

pub proof fn lemma_module_without_duplicates(els: Seq<ElementModel>, p: int, acc: ModuleModel)
    requires
        0 <= p <= els.len(),
        distinct_declarations(els),
        forall|k: DeclarationKind, n: Seq<char>|
            #[trigger] has_declared(acc, k, n) ==> declared_before(els, p, k, n),
    ensures
        fold_module(els, p, acc) is Ok,
    decreases els.len() - p,
{
    if p < els.len() {
        match els[p] {
            ElementModel::Comment(_) => {
                lemma_declared_step(els, p, acc, acc);
                lemma_module_without_duplicates(els, p + 1, acc);
            },
            ElementModel::Import(im) => {
                let acc2 = ModuleModel { imports: acc.imports.push(im), ..acc };
                assert forall|k: DeclarationKind, n: Seq<char>| #[trigger] has_declared(acc2, k, n) implies has_declared(
                    acc,
                    k,
                    n,
                ) || declared_name(els[p], k) == Some(n) by {}
                lemma_declared_step(els, p, acc, acc2);
                lemma_module_without_duplicates(els, p + 1, acc2);
            },
            ElementModel::DataType(m, d) => {
                if has_key(acc.data_types, m) {
                    assert(has_declared(acc, DeclarationKind::DataType, m));
                    let i = choose|i: int| 0 <= i < p && #[trigger] declared_name(els[i], DeclarationKind::DataType) == Some(m);
                    assert(declared_name(els[i], DeclarationKind::DataType) == Some(m));
                    assert(declared_name(els[p], DeclarationKind::DataType) == Some(m));
                    assert(false);
                }
                let acc2 = ModuleModel { data_types: acc.data_types.push((m, d)), ..acc };
                assert forall|k: DeclarationKind, n: Seq<char>| #[trigger] has_declared(acc2, k, n) implies has_declared(
                    acc,
                    k,
                    n,
                ) || declared_name(els[p], k) == Some(n) by {
                    if k == DeclarationKind::DataType {
                        lemma_has_key_push_inv(acc.data_types, (m, d), n);
                    }
                }
                lemma_declared_step(els, p, acc, acc2);
                lemma_module_without_duplicates(els, p + 1, acc2);
            },
            ElementModel::Enum(m, e) => {
                if has_key(acc.enums, m) {
                    assert(has_declared(acc, DeclarationKind::Enum, m));
                    let i = choose|i: int| 0 <= i < p && #[trigger] declared_name(els[i], DeclarationKind::Enum) == Some(m);
                    assert(declared_name(els[i], DeclarationKind::Enum) == Some(m));
                    assert(declared_name(els[p], DeclarationKind::Enum) == Some(m));
                    assert(false);
                }
                let acc2 = ModuleModel { enums: acc.enums.push((m, e)), ..acc };
                assert forall|k: DeclarationKind, n: Seq<char>| #[trigger] has_declared(acc2, k, n) implies has_declared(
                    acc,
                    k,
                    n,
                ) || declared_name(els[p], k) == Some(n) by {
                    if k == DeclarationKind::Enum {
                        lemma_has_key_push_inv(acc.enums, (m, e), n);
                    }
                }
                lemma_declared_step(els, p, acc, acc2);
                lemma_module_without_duplicates(els, p + 1, acc2);
            },
            ElementModel::Service(m, body, attrs) => {
                if has_key(acc.services, m) {
                    assert(has_declared(acc, DeclarationKind::Service, m));
                    let i = choose|i: int| 0 <= i < p && #[trigger] declared_name(els[i], DeclarationKind::Service) == Some(m);
                    assert(declared_name(els[i], DeclarationKind::Service) == Some(m));
                    assert(declared_name(els[p], DeclarationKind::Service) == Some(m));
                    assert(false);
                }
                assert(els[p] is Service);
                lemma_distinct_members_assemble(body, attrs);
                let sv = assemble_service_model(body, attrs)->Ok_0;
                let acc2 = ModuleModel { services: acc.services.push((m, sv)), ..acc };
                assert forall|k: DeclarationKind, n: Seq<char>| #[trigger] has_declared(acc2, k, n) implies has_declared(
                    acc,
                    k,
                    n,
                ) || declared_name(els[p], k) == Some(n) by {
                    if k == DeclarationKind::Service {
                        lemma_has_key_push_inv(acc.services, (m, sv), n);
                    }
                }
                lemma_declared_step(els, p, acc, acc2);
                lemma_module_without_duplicates(els, p + 1, acc2);
            },
        }
    }
}

/// Elements that repeat no data type, enum or service name, and whose service
/// bodies repeat no function or event name, assemble into a module.
pub proof fn lemma_distinct_declarations_assemble(namespace: Seq<Seq<char>>, els: Seq<ElementModel>)
    requires
        distinct_declarations(els),
    ensures
        assemble_model(namespace, els) is Ok,
{
    let acc = ModuleModel {
        namespace,
        imports: Seq::empty(),
        data_types: Seq::empty(),
        enums: Seq::empty(),
        services: Seq::empty(),
    };
    assert forall|k: DeclarationKind, n: Seq<char>| #[trigger] has_declared(acc, k, n) implies declared_before(
        els,
        0,
        k,
        n,
    ) by {
        if k == DeclarationKind::DataType {
            let w = choose|x: int| 0 <= x < acc.data_types.len() && #[trigger] acc.data_types[x].0 == n;
        } else if k == DeclarationKind::Enum {
            let w = choose|x: int| 0 <= x < acc.enums.len() && #[trigger] acc.enums[x].0 == n;
        } else if k == DeclarationKind::Service {
            let w = choose|x: int| 0 <= x < acc.services.len() && #[trigger] acc.services[x].0 == n;
        }
    }
    lemma_module_without_duplicates(els, 0, acc);
}

pub proof fn lemma_service_error_is_duplicate(
    body: Seq<ServiceElementModel>,
    p: int,
    acc: ServiceModel,
    buf: Seq<Seq<char>>,
)
    requires
        fold_service(body, p, acc, buf) is Err,
    ensures
        fold_service(body, p, acc, buf)->Err_0.kind is DuplicateDeclaration,
    decreases body.len() - p,
{
    if 0 <= p < body.len() {
        match body[p] {
            ServiceElementModel::Comment(c) => {
                lemma_service_error_is_duplicate(body, p + 1, acc, buf.push(c));
            },
            ServiceElementModel::Dependency(d) => {
                let acc2 = ServiceModel {
                    dependencies: acc.dependencies.push(DependencyModel { comments: d.comments + buf, ..d }),
                    ..acc
                };
                lemma_service_error_is_duplicate(body, p + 1, acc2, Seq::empty());
            },
            ServiceElementModel::Function(m, f) => {
                if !has_key(acc.functions, m) {
                    let x = (m, FunctionModel { comments: f.comments + buf, ..f });
                    let acc2 = ServiceModel { functions: acc.functions.push(x), ..acc };
                    lemma_service_error_is_duplicate(body, p + 1, acc2, Seq::empty());
                }
            },
            ServiceElementModel::Event(m, e) => {
                if !has_key(acc.events, m) {
                    let x = (m, EventModel { comments: e.comments + buf, ..e });
                    let acc2 = ServiceModel { events: acc.events.push(x), ..acc };
                    lemma_service_error_is_duplicate(body, p + 1, acc2, Seq::empty());
                }
            },
        }
    }
}

pub proof fn lemma_module_error_is_duplicate(els: Seq<ElementModel>, p: int, acc: ModuleModel)
    requires
        fold_module(els, p, acc) is Err,
    ensures
        fold_module(els, p, acc)->Err_0.kind is DuplicateDeclaration,
    decreases els.len() - p,
{
    if 0 <= p < els.len() {
        match els[p] {
            ElementModel::Comment(_) => {
                lemma_module_error_is_duplicate(els, p + 1, acc);
            },
            ElementModel::Import(im) => {
                lemma_module_error_is_duplicate(
                    els,
                    p + 1,
                    ModuleModel { imports: acc.imports.push(im), ..acc },
                );
            },
            ElementModel::DataType(m, d) => {
                if !has_key(acc.data_types, m) {
                    lemma_module_error_is_duplicate(
                        els,
                        p + 1,
                        ModuleModel { data_types: acc.data_types.push((m, d)), ..acc },
                    );
                }
            },
            ElementModel::Enum(m, e) => {
                if !has_key(acc.enums, m) {
                    lemma_module_error_is_duplicate(
                        els,
                        p + 1,
                        ModuleModel { enums: acc.enums.push((m, e)), ..acc },
                    );
                }
            },
            ElementModel::Service(m, body, attrs) => {
                if !has_key(acc.services, m) {
                    match assemble_service_model(body, attrs) {
                        Ok(sv) => {
                            lemma_module_error_is_duplicate(
                                els,
                                p + 1,
                                ModuleModel { services: acc.services.push((m, sv)), ..acc },
                            );
                        },
                        Err(_) => {
                            lemma_service_error_is_duplicate(
                                body,
                                0,
                                ServiceModel {
                                    dependencies: Seq::empty(),
                                    functions: Seq::empty(),
                                    events: Seq::empty(),
                                    attributes: attrs,
                                },
                                Seq::empty(),
                            );
                        },
                    }
                }
            },
        }
    }
}

/// Assembly fails exactly when a name repeats (two data types, enums or
/// services, or two functions or events of one service), and then always with
/// a duplicate-declaration error.
pub proof fn lemma_assembly_fails_only_on_duplicates(namespace: Seq<Seq<char>>, els: Seq<ElementModel>)
    ensures
        assemble_model(namespace, els) is Err <==> !distinct_declarations(els),
        assemble_model(namespace, els) is Err ==> assemble_model(namespace, els)->Err_0.kind is DuplicateDeclaration,
{
    if distinct_declarations(els) {
        lemma_distinct_declarations_assemble(namespace, els);
    } else {
        if exists|i: int, j: int, k: DeclarationKind|
            0 <= i < j < els.len() && (#[trigger] declared_name(els[i], k)) is Some
                && declared_name(els[i], k) == #[trigger] declared_name(els[j], k) {
            let (i, j, k) = choose|i: int, j: int, k: DeclarationKind|
                0 <= i < j < els.len() && (#[trigger] declared_name(els[i], k)) is Some
                    && declared_name(els[i], k) == #[trigger] declared_name(els[j], k);
            lemma_duplicate_declarations_rejected(namespace, els, i, j, k);
        } else {
            let x = choose|x: int| 0 <= x < els.len() && (#[trigger] els[x]) is Service && !distinct_members(
                els[x]->Service_1,
            );
            let body = els[x]->Service_1;
            let (i, j, ev) = choose|i: int, j: int, ev: bool|
                0 <= i < j < body.len() && (#[trigger] member_name(body[i], ev)) is Some
                    && member_name(body[i], ev) == #[trigger] member_name(body[j], ev);
            lemma_duplicate_members_rejected(body, els[x]->Service_2, i, j, ev);
            lemma_service_in_module_fails(namespace, els, x);
        }
    }
    if assemble_model(namespace, els) is Err {
        lemma_module_error_is_duplicate(
            els,
            0,
            ModuleModel {
                namespace,
                imports: Seq::empty(),
                data_types: Seq::empty(),
                enums: Seq::empty(),
                services: Seq::empty(),
            },
        );
    }
}

/// A service that does not assemble makes the module fail.
pub proof fn lemma_service_in_module_fails(namespace: Seq<Seq<char>>, els: Seq<ElementModel>, x: int)
    requires
        0 <= x < els.len(),
        els[x] is Service,
        assemble_service_model(els[x]->Service_1, els[x]->Service_2) is Err,
    ensures
        assemble_model(namespace, els) is Err,
{
    lemma_fold_reaches_failing_service(
        els,
        0,
        ModuleModel {
            namespace,
            imports: Seq::empty(),
            data_types: Seq::empty(),
            enums: Seq::empty(),
            services: Seq::empty(),
        },
        x,
    );
}

pub proof fn lemma_fold_reaches_failing_service(els: Seq<ElementModel>, p: int, acc: ModuleModel, x: int)
    requires
        0 <= p <= x < els.len(),
        els[x] is Service,
        assemble_service_model(els[x]->Service_1, els[x]->Service_2) is Err,
    ensures
        fold_module(els, p, acc) is Err,
    decreases x - p,
{
    if p < x {
        match els[p] {
            ElementModel::Comment(_) => {
                lemma_fold_reaches_failing_service(els, p + 1, acc, x);
            },
            ElementModel::Import(im) => {
                lemma_fold_reaches_failing_service(
                    els,
                    p + 1,
                    ModuleModel { imports: acc.imports.push(im), ..acc },
                    x,
                );
            },
            ElementModel::DataType(m, d) => {
                if !has_key(acc.data_types, m) {
                    lemma_fold_reaches_failing_service(
                        els,
                        p + 1,
                        ModuleModel { data_types: acc.data_types.push((m, d)), ..acc },
                        x,
                    );
                }
            },
            ElementModel::Enum(m, e) => {
                if !has_key(acc.enums, m) {
                    lemma_fold_reaches_failing_service(
                        els,
                        p + 1,
                        ModuleModel { enums: acc.enums.push((m, e)), ..acc },
                        x,
                    );
                }
            },
            ElementModel::Service(m, body, attrs) => {
                if !has_key(acc.services, m) {
                    match assemble_service_model(body, attrs) {
                        Ok(sv) => {
                            lemma_fold_reaches_failing_service(
                                els,
                                p + 1,
                                ModuleModel { services: acc.services.push((m, sv)), ..acc },
                                x,
                            );
                        },
                        Err(_) => {},
                    }
                }
            },
        }
    }
}

} // verus!
