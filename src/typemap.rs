//! The type-mapping pass: rewrites every type reference of a module through a
//! table from canonical type paths to replacement paths.

use vstd::prelude::*;

use crate::ast::{
    DataType, DataTypeModel, DeepCopy, Event, EventModel, Function, FunctionModel, Namespace,
    Service, ServiceModel, SsdModule, ModuleModel, TypeName, TypeNameModel,
};
use crate::text::{join_path, split_path};

verus! {

/// A key or value of a mapping table, written either as one `::`-joined
/// string or as its list of segments.
#[derive(Clone, Debug, PartialEq)]
pub enum TypePath {
    Joined(String),
    Segments(Vec<String>),
}

/// The canonical `::`-joined text of a table key or value.
pub open spec fn canonical_text(p: TypePath) -> Seq<char> {
    match p {
        TypePath::Joined(s) => s@,
        TypePath::Segments(v) => join_path(v.deep_view()),
    }
}

impl TypePath {
    /// The canonical `::`-joined text of this path.
    pub fn canonical(&self) -> (r: String)
        ensures
            r@ == canonical_text(*self),
    {
        match self {
            TypePath::Joined(s) => s.deep_copy(),
            TypePath::Segments(v) => Namespace { components: v.deep_copy() }.to_string(),
        }
    }
}

/// The table with each key and value in canonical form.
pub fn canonical_mapping(entries: &[(TypePath, TypePath)]) -> (r: Vec<(String, String)>)
    ensures
        r@.len() == entries@.len(),
        forall|i: int|
            0 <= i < entries@.len() ==> #[trigger] r.deep_view()[i] == (
                canonical_text(entries@[i].0),
                canonical_text(entries@[i].1),
            ),
{
    let mut out: Vec<(String, String)> = Vec::new();
    let mut i: usize = 0;
    while i < entries.len()
        invariant
            i <= entries@.len(),
            out@.len() == i,
            forall|j: int|
                0 <= j < i ==> #[trigger] out.deep_view()[j] == (
                    canonical_text(entries@[j].0),
                    canonical_text(entries@[j].1),
                ),
        decreases entries@.len() - i,
    {
        let k = entries[i].0.canonical();
        let v = entries[i].1.canonical();
        let ghost old_out = out.deep_view();
        out.push((k, v));
        proof {
            assert(out.deep_view() =~= old_out.push((k@, v@)));
        }
        i = i + 1;
    }
    out
}

/// The value of the first entry whose key is `k`.
pub open spec fn lookup(m: Seq<(Seq<char>, Seq<char>)>, k: Seq<char>) -> Option<Seq<char>>
    decreases m.len(),
{
    if m.len() == 0 {
        None
    } else if m[0].0 == k {
        Some(m[0].1)
    } else {
        lookup(m.drop_first(), k)
    }
}

/// The type reference with its path replaced where the table maps it; all
/// else is kept.
pub open spec fn rewrite_type(t: TypeNameModel, m: Seq<(Seq<char>, Seq<char>)>) -> TypeNameModel {
    match lookup(m, join_path(t.typ)) {
        Some(v) => TypeNameModel { typ: split_path(v), ..t },
        None => t,
    }
}

pub open spec fn rewrite_entries(
    ps: Seq<(Seq<char>, TypeNameModel)>,
    m: Seq<(Seq<char>, Seq<char>)>,
) -> Seq<(Seq<char>, TypeNameModel)> {
    Seq::new(ps.len(), |i: int| (ps[i].0, rewrite_type(ps[i].1, m)))
}

pub open spec fn rewrite_function(f: FunctionModel, m: Seq<(Seq<char>, Seq<char>)>) -> FunctionModel {
    FunctionModel {
        arguments: rewrite_entries(f.arguments, m),
        return_type: match f.return_type {
            Some(t) => Some(rewrite_type(t, m)),
            None => None,
        },
        ..f
    }
}

pub open spec fn rewrite_service(s: ServiceModel, m: Seq<(Seq<char>, Seq<char>)>) -> ServiceModel {
    ServiceModel {
        functions: Seq::new(
            s.functions.len(),
            |i: int| (s.functions[i].0, rewrite_function(s.functions[i].1, m)),
        ),
        events: Seq::new(
            s.events.len(),
            |i: int|
                (
                    s.events[i].0,
                    EventModel { arguments: rewrite_entries(s.events[i].1.arguments, m), ..s.events[i].1 },
                ),
        ),
        ..s
    }
}

/// The module with every property, argument and return type rewritten
/// through the table; names, dependencies, imports and enums are kept.
pub open spec fn rewrite_module(md: ModuleModel, m: Seq<(Seq<char>, Seq<char>)>) -> ModuleModel {
    ModuleModel {
        data_types: Seq::new(
            md.data_types.len(),
            |i: int|
                (
                    md.data_types[i].0,
                    DataTypeModel {
                        properties: rewrite_entries(md.data_types[i].1.properties, m),
                        ..md.data_types[i].1
                    },
                ),
        ),
        services: Seq::new(
            md.services.len(),
            |i: int| (md.services[i].0, rewrite_service(md.services[i].1, m)),
        ),
        ..md
    }
}

fn lookup_exec<'a>(m: &'a [(String, String)], k: &String) -> (r: Option<&'a String>)
    ensures
        match lookup(m.deep_view(), k@) {
            Some(v) => r is Some && r->Some_0@ == v,
            None => r is None,
        },
{
    let ghost mv = m.deep_view();
    let mut i: usize = 0;
    proof {
        assert(mv.subrange(0, mv.len() as int) =~= mv);
    }
    while i < m.len()
        invariant
            i <= m@.len(),
            mv == m.deep_view(),
            lookup(mv, k@) == lookup(mv.subrange(i as int, mv.len() as int), k@),
        decreases m@.len() - i,
    {
        let ghost rest = mv.subrange(i as int, mv.len() as int);
        proof {
            assert(rest.drop_first() =~= mv.subrange(i + 1, mv.len() as int));
        }
        if m[i].0.eq(k) {
            return Some(&m[i].1);
        }
        i = i + 1;
    }
    proof {
        assert(mv.subrange(i as int, mv.len() as int).len() == 0);
    }
    None
}

/// The type reference rewritten through the table.
fn map_type(t: &TypeName, mapping: &[(String, String)]) -> (r: TypeName)
    ensures
        r.deep_view() == rewrite_type(t.deep_view(), mapping.deep_view()),
{
    let key = t.typ.to_string();
    match lookup_exec(mapping, &key) {
        Some(v) => TypeName {
            typ: Namespace::new(v.as_str()),
            is_list: t.is_list,
            count: t.count,
            attributes: t.attributes.deep_copy(),
            comments: t.comments.deep_copy(),
        },
        None => t.deep_copy(),
    }
}

fn map_entries(ps: &Vec<(String, TypeName)>, mapping: &[(String, String)]) -> (r: Vec<(String, TypeName)>)
    ensures
        r.deep_view() == rewrite_entries(ps.deep_view(), mapping.deep_view()),
{
    let mut out: Vec<(String, TypeName)> = Vec::new();
    let mut i: usize = 0;
    while i < ps.len()
        invariant
            i <= ps@.len(),
            out.deep_view() == rewrite_entries(ps.deep_view(), mapping.deep_view()).take(i as int),
        decreases ps@.len() - i,
    {
        let entry = (ps[i].0.deep_copy(), map_type(&ps[i].1, mapping));
        let ghost old_out = out.deep_view();
        let ghost target = rewrite_entries(ps.deep_view(), mapping.deep_view());
        proof {
            assert(entry.deep_view() == target[i as int]);
        }
        out.push(entry);
        proof {
            assert(out.deep_view() =~= old_out.push(target[i as int]));
            assert(target.take(i + 1) =~= target.take(i as int).push(target[i as int]));
        }
        i = i + 1;
    }
    proof {
        assert(rewrite_entries(ps.deep_view(), mapping.deep_view()).take(i as int) =~= rewrite_entries(
            ps.deep_view(),
            mapping.deep_view(),
        ));
    }
    out
}

fn map_service(s: &Service, mapping: &[(String, String)]) -> (r: Service)
    ensures
        r.deep_view() == rewrite_service(s.deep_view(), mapping.deep_view()),
{
    let ghost target = rewrite_service(s.deep_view(), mapping.deep_view());
    let mut functions: Vec<(String, Function)> = Vec::new();
    let mut i: usize = 0;
    while i < s.functions.len()
        invariant
            i <= s.functions@.len(),
            target == rewrite_service(s.deep_view(), mapping.deep_view()),
            functions.deep_view() == target.functions.take(i as int),
        decreases s.functions@.len() - i,
    {
        let f = &s.functions[i].1;
        let return_type = match &f.return_type {
            Some(t) => Some(map_type(t, mapping)),
            None => None,
        };
        let nf = Function {
            arguments: map_entries(&f.arguments, mapping),
            return_type,
            attributes: f.attributes.deep_copy(),
            comments: f.comments.deep_copy(),
        };
        let ghost old_out = functions.deep_view();
        let entry = (s.functions[i].0.deep_copy(), nf);
        functions.push(entry);
        proof {
            assert(functions.deep_view() =~= old_out.push(entry.deep_view()));
            assert(entry.deep_view() == target.functions[i as int]);
            assert(target.functions.take(i + 1) =~= target.functions.take(i as int).push(target.functions[i as int]));
        }
        i = i + 1;
    }
    let mut events: Vec<(String, Event)> = Vec::new();
    let mut j: usize = 0;
    while j < s.events.len()
        invariant
            j <= s.events@.len(),
            target == rewrite_service(s.deep_view(), mapping.deep_view()),
            events.deep_view() == target.events.take(j as int),
        decreases s.events@.len() - j,
    {
        let e = &s.events[j].1;
        let ne = Event {
            arguments: map_entries(&e.arguments, mapping),
            attributes: e.attributes.deep_copy(),
            comments: e.comments.deep_copy(),
        };
        let ghost old_out = events.deep_view();
        let entry = (s.events[j].0.deep_copy(), ne);
        events.push(entry);
        proof {
            assert(events.deep_view() =~= old_out.push(entry.deep_view()));
            assert(entry.deep_view() == target.events[j as int]);
            assert(target.events.take(j + 1) =~= target.events.take(j as int).push(target.events[j as int]));
        }
        j = j + 1;
    }
    proof {
        assert(functions.deep_view() =~= target.functions);
        assert(events.deep_view() =~= target.events);
    }
    Service {
        dependencies: s.dependencies.deep_copy(),
        functions,
        events,
        attributes: s.attributes.deep_copy(),
    }
}

/// Rewrites every property, argument and return type of `module` whose
/// canonical path is a key of `mapping` (the first such entry wins) to the
/// entry's value; everything else is kept.
pub fn update_types(module: SsdModule, mapping: &[(String, String)]) -> (r: SsdModule)
    ensures
        r.deep_view() == rewrite_module(module.deep_view(), mapping.deep_view()),
{
    let ghost target = rewrite_module(module.deep_view(), mapping.deep_view());
    let mut data_types: Vec<(String, DataType)> = Vec::new();
    let mut i: usize = 0;
    while i < module.data_types.len()
        invariant
            i <= module.data_types@.len(),
            target == rewrite_module(module.deep_view(), mapping.deep_view()),
            data_types.deep_view() == target.data_types.take(i as int),
        decreases module.data_types@.len() - i,
    {
        let d = &module.data_types[i].1;
        let nd = DataType {
            properties: map_entries(&d.properties, mapping),
            attributes: d.attributes.deep_copy(),
        };
        let ghost old_out = data_types.deep_view();
        let entry = (module.data_types[i].0.deep_copy(), nd);
        data_types.push(entry);
        proof {
            assert(data_types.deep_view() =~= old_out.push(entry.deep_view()));
            assert(entry.deep_view() == target.data_types[i as int]);
            assert(target.data_types.take(i + 1) =~= target.data_types.take(i as int).push(target.data_types[i as int]));
        }
        i = i + 1;
    }
    let mut services: Vec<(String, Service)> = Vec::new();
    let mut j: usize = 0;
    while j < module.services.len()
        invariant
            j <= module.services@.len(),
            target == rewrite_module(module.deep_view(), mapping.deep_view()),
            services.deep_view() == target.services.take(j as int),
        decreases module.services@.len() - j,
    {
        let ns = map_service(&module.services[j].1, mapping);
        let ghost old_out = services.deep_view();
        let entry = (module.services[j].0.deep_copy(), ns);
        services.push(entry);
        proof {
            assert(services.deep_view() =~= old_out.push(entry.deep_view()));
            assert(entry.deep_view() == target.services[j as int]);
            assert(target.services.take(j + 1) =~= target.services.take(j as int).push(target.services[j as int]));
        }
        j = j + 1;
    }
    proof {
        assert(data_types.deep_view() =~= target.data_types);
        assert(services.deep_view() =~= target.services);
    }
    SsdModule {
        namespace: module.namespace,
        imports: module.imports,
        data_types,
        enums: module.enums,
        services,
    }
}

/// With an empty table, rewriting keeps the module as it is.
pub proof fn lemma_empty_mapping_keeps_module(md: ModuleModel)
    ensures
        rewrite_module(md, Seq::empty()) == md,
{
    let m = Seq::<(Seq<char>, Seq<char>)>::empty();
    assert forall|t: TypeNameModel| rewrite_type(t, m) == t by {}
    assert forall|ps: Seq<(Seq<char>, TypeNameModel)>| rewrite_entries(ps, m) == ps by {
        assert(rewrite_entries(ps, m) =~= ps);
    }
    let r = rewrite_module(md, m);
    assert forall|i: int| 0 <= i < md.data_types.len() implies r.data_types[i] == md.data_types[i] by {
        assert(rewrite_entries(md.data_types[i].1.properties, m) == md.data_types[i].1.properties);
    }
    assert(r.data_types =~= md.data_types);
    assert forall|i: int| 0 <= i < md.services.len() implies r.services[i] == md.services[i] by {
        let s = md.services[i].1;
        let rs = rewrite_service(s, m);
        assert forall|k: int| 0 <= k < s.functions.len() implies rs.functions[k] == s.functions[k] by {
            let f = s.functions[k].1;
            assert(rewrite_entries(f.arguments, m) == f.arguments);
            assert(rewrite_function(f, m) == f);
        }
        assert(rs.functions =~= s.functions);
        assert forall|k: int| 0 <= k < s.events.len() implies rs.events[k] == s.events[k] by {
            assert(rewrite_entries(s.events[k].1.arguments, m) == s.events[k].1.arguments);
        }
        assert(rs.events =~= s.events);
    }
    assert(r.services =~= md.services);
}

} // verus!
