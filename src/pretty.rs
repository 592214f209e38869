//! The canonical printer: renders raw elements back to source text.
//!
//! Every rendered line ends with a newline. Declarations are separated by one
//! blank line, except after a standalone comment and between consecutive
//! imports.

use vstd::prelude::*;

use crate::ast::{
    AstElement, Attribute, AttributeModel, DataType, DataTypeModel, DeepCopy, Dependency,
    DependencyModel, ElementModel, EventModel, FunctionModel,
    Enum, EnumModel, EnumValueModel, Event, Function, ImportModel, Namespace, Parameter,
    ParameterModel, ServiceAstElement, ServiceElementModel, TypeName, TypeNameModel,
};
use crate::files::split_char_from;
use crate::text::join_path;

verus! {

pub open spec fn digit_char(d: nat) -> char {
    if d == 0 {
        '0'
    } else if d == 1 {
        '1'
    } else if d == 2 {
        '2'
    } else if d == 3 {
        '3'
    } else if d == 4 {
        '4'
    } else if d == 5 {
        '5'
    } else if d == 6 {
        '6'
    } else if d == 7 {
        '7'
    } else if d == 8 {
        '8'
    } else {
        '9'
    }
}

/// The decimal digits of `n`, without leading zeros.
pub open spec fn nat_text(n: nat) -> Seq<char>
    decreases n,
{
    if n < 10 {
        seq![digit_char(n)]
    } else {
        nat_text(n / 10) + seq![digit_char(n % 10)]
    }
}

/// The decimal text of `v`, with a leading `-` where it is negative.
pub open spec fn int_text(v: int) -> Seq<char> {
    if v < 0 {
        seq!['-'] + nat_text((-v) as nat)
    } else {
        nat_text(v as nat)
    }
}

pub open spec fn param_text(p: ParameterModel) -> Seq<char> {
    match p.value {
        Some(v) => p.name + " = \""@ + v + "\""@,
        None => p.name,
    }
}

/// The parameters, separated by `, `.
pub open spec fn params_text(ps: Seq<ParameterModel>) -> Seq<char>
    decreases ps.len(),
{
    if ps.len() == 0 {
        Seq::empty()
    } else if ps.len() == 1 {
        param_text(ps[0])
    } else {
        params_text(ps.drop_last()) + ", "@ + param_text(ps.last())
    }
}

/// `name`, or `name(params)` where it has parameters.
pub open spec fn attribute_text(a: AttributeModel) -> Seq<char> {
    if a.parameters.len() == 0 {
        join_path(a.name)
    } else {
        join_path(a.name) + "("@ + params_text(a.parameters) + ")"@
    }
}

pub open spec fn attribute_list_text(attrs: Seq<AttributeModel>) -> Seq<char>
    decreases attrs.len(),
{
    if attrs.len() == 0 {
        Seq::empty()
    } else if attrs.len() == 1 {
        attribute_text(attrs[0])
    } else {
        attribute_list_text(attrs.drop_last()) + ", "@ + attribute_text(attrs.last())
    }
}

/// `#[a, b(...)]`.
pub open spec fn attributes_text(attrs: Seq<AttributeModel>) -> Seq<char> {
    "#["@ + attribute_list_text(attrs) + "]"@
}

/// The attributes on a line of their own, or nothing where there are none.
pub open spec fn attributes_line(attrs: Seq<AttributeModel>, indent: Seq<char>) -> Seq<char> {
    if attrs.len() == 0 {
        Seq::empty()
    } else {
        indent + attributes_text(attrs) + "\n"@
    }
}

/// The attributes followed by a space, or nothing where there are none.
pub open spec fn attributes_inline(attrs: Seq<AttributeModel>) -> Seq<char> {
    if attrs.len() == 0 {
        Seq::empty()
    } else {
        attributes_text(attrs) + " "@
    }
}

/// `list of T`, `N of T` or `T`.
pub open spec fn type_text(t: TypeNameModel) -> Seq<char> {
    if t.is_list {
        match t.count {
            Some(n) => nat_text(n as nat) + " of "@ + join_path(t.typ),
            None => "list of "@ + join_path(t.typ),
        }
    } else {
        join_path(t.typ)
    }
}

/// Each comment as an indented `/// ` line.
pub open spec fn comments_text(cs: Seq<Seq<char>>) -> Seq<char>
    decreases cs.len(),
{
    if cs.len() == 0 {
        Seq::empty()
    } else {
        comments_text(cs.drop_last()) + comment_block(cs.last())
    }
}

/// Each of the lines as an indented `/// ` line.
pub open spec fn comment_lines_text(lines: Seq<Seq<char>>) -> Seq<char>
    decreases lines.len(),
{
    if lines.len() == 0 {
        Seq::empty()
    } else {
        comment_lines_text(lines.drop_last()) + "\t/// "@ + lines.last() + "\n"@
    }
}

/// A comment as one indented `/// ` line for each of its lines.
pub open spec fn comment_block(c: Seq<char>) -> Seq<char> {
    comment_lines_text(split_char_from(c, '\n', 0, 0))
}

pub open spec fn property_text(p: (Seq<char>, TypeNameModel)) -> Seq<char> {
    comments_text(p.1.comments) + attributes_line(p.1.attributes, "\t"@) + "\t"@ + p.0 + ": "@
        + type_text(p.1) + ",\n"@
}

pub open spec fn properties_text(ps: Seq<(Seq<char>, TypeNameModel)>) -> Seq<char>
    decreases ps.len(),
{
    if ps.len() == 0 {
        Seq::empty()
    } else {
        properties_text(ps.drop_last()) + property_text(ps.last())
    }
}

pub open spec fn datatype_text(name: Seq<char>, d: DataTypeModel) -> Seq<char> {
    attributes_line(d.attributes, Seq::empty()) + "data "@ + name + " {\n"@ + properties_text(
        d.properties,
    ) + "};"@
}

pub open spec fn variant_text(v: (Seq<char>, EnumValueModel)) -> Seq<char> {
    comments_text(v.1.comments) + "\t"@ + attributes_inline(v.1.attributes) + v.0 + match v.1.value {
        Some(x) => " = "@ + int_text(x as int),
        None => Seq::empty(),
    } + ",\n"@
}

pub open spec fn variants_text(vs: Seq<(Seq<char>, EnumValueModel)>) -> Seq<char>
    decreases vs.len(),
{
    if vs.len() == 0 {
        Seq::empty()
    } else {
        variants_text(vs.drop_last()) + variant_text(vs.last())
    }
}

pub open spec fn enum_text(name: Seq<char>, e: EnumModel) -> Seq<char> {
    attributes_line(e.attributes, Seq::empty()) + "enum "@ + name + " {\n"@ + variants_text(e.values)
        + "};"@
}

/// `[attributes ]name: type`.
pub open spec fn argument_text(a: (Seq<char>, TypeNameModel)) -> Seq<char> {
    attributes_inline(a.1.attributes) + a.0 + ": "@ + type_text(a.1)
}

pub open spec fn arguments_text(args: Seq<(Seq<char>, TypeNameModel)>) -> Seq<char>
    decreases args.len(),
{
    if args.len() == 0 {
        Seq::empty()
    } else if args.len() == 1 {
        argument_text(args[0])
    } else {
        arguments_text(args.drop_last()) + ", "@ + argument_text(args.last())
    }
}

/// The comments that directly precede element `i` of a service body.
pub open spec fn comments_before(body: Seq<ServiceElementModel>, i: int) -> Seq<Seq<char>>
    decreases i,
{
    if 0 < i <= body.len() {
        match body[i - 1] {
            ServiceElementModel::Comment(c) => comments_before(body, i - 1).push(c),
            _ => Seq::empty(),
        }
    } else {
        Seq::empty()
    }
}

/// A dependency line, after its comments and attributes.
pub open spec fn dependency_line(d: DependencyModel, before: Seq<Seq<char>>) -> Seq<char> {
    comments_text(d.comments + before) + attributes_line(d.attributes, "\t"@) + "\tdepends on "@
        + join_path(d.name) + ";\n"@
}

/// A function line, after its comments and attributes.
pub open spec fn function_line(n: Seq<char>, f: FunctionModel, before: Seq<Seq<char>>) -> Seq<char> {
    comments_text(f.comments + before) + attributes_line(f.attributes, "\t"@) + "\tfn "@ + n + "("@
        + arguments_text(f.arguments) + ")"@ + return_text(f.return_type) + ";\n"@
}

/// An event line, after its comments and attributes.
pub open spec fn event_line(n: Seq<char>, e: EventModel, before: Seq<Seq<char>>) -> Seq<char> {
    comments_text(e.comments + before) + attributes_line(e.attributes, "\t"@) + "\tevent "@ + n
        + "("@ + arguments_text(e.arguments) + ");\n"@
}

pub open spec fn dependency_text(body: Seq<ServiceElementModel>, i: int) -> Seq<char> {
    match body[i] {
        ServiceElementModel::Dependency(d) => dependency_line(d, comments_before(body, i)),
        _ => Seq::empty(),
    }
}

pub open spec fn function_text(body: Seq<ServiceElementModel>, i: int) -> Seq<char> {
    match body[i] {
        ServiceElementModel::Function(n, f) => function_line(n, f, comments_before(body, i)),
        _ => Seq::empty(),
    }
}

pub open spec fn event_text(body: Seq<ServiceElementModel>, i: int) -> Seq<char> {
    match body[i] {
        ServiceElementModel::Event(n, e) => event_line(n, e, comments_before(body, i)),
        _ => Seq::empty(),
    }
}

/// The dependencies among the first `i` elements of a body.
pub open spec fn dependencies_upto(body: Seq<ServiceElementModel>, i: int) -> Seq<char>
    decreases i,
{
    if 0 < i <= body.len() {
        dependencies_upto(body, i - 1) + dependency_text(body, i - 1)
    } else {
        Seq::empty()
    }
}

/// The functions among the first `i` elements of a body.
pub open spec fn functions_upto(body: Seq<ServiceElementModel>, i: int) -> Seq<char>
    decreases i,
{
    if 0 < i <= body.len() {
        functions_upto(body, i - 1) + function_text(body, i - 1)
    } else {
        Seq::empty()
    }
}

/// The events among the first `i` elements of a body.
pub open spec fn events_upto(body: Seq<ServiceElementModel>, i: int) -> Seq<char>
    decreases i,
{
    if 0 < i <= body.len() {
        events_upto(body, i - 1) + event_text(body, i - 1)
    } else {
        Seq::empty()
    }
}

/// A service: its dependencies, a blank line, its functions, a blank line,
/// its events; each declaration with the comments that preceded it.
pub open spec fn service_text(
    name: Seq<char>,
    body: Seq<ServiceElementModel>,
    attrs: Seq<AttributeModel>,
) -> Seq<char> {
    attributes_line(attrs, Seq::empty()) + "service "@ + name + " {\n"@ + dependencies_upto(
        body,
        body.len() as int,
    ) + "\n"@ + functions_upto(body, body.len() as int) + "\n"@ + events_upto(
        body,
        body.len() as int,
    ) + "};"@
}

pub open spec fn import_text(im: ImportModel) -> Seq<char> {
    attributes_line(im.attributes, Seq::empty()) + "import "@ + join_path(im.path) + ";\n"@
}

pub open spec fn element_text(el: ElementModel) -> Seq<char> {
    match el {
        ElementModel::Comment(c) => "/// "@ + c + "\n"@,
        ElementModel::Import(im) => import_text(im),
        ElementModel::DataType(n, d) => datatype_text(n, d) + "\n"@,
        ElementModel::Enum(n, e) => enum_text(n, e) + "\n"@,
        ElementModel::Service(n, body, attrs) => service_text(n, body, attrs) + "\n"@,
    }
}

/// The blank line in front of element `i`: none for the first element, none
/// after a standalone comment, none between two imports.
pub open spec fn separator(els: Seq<ElementModel>, i: int) -> Seq<char> {
    if i == 0 {
        Seq::empty()
    } else if els[i - 1] is Comment {
        Seq::empty()
    } else if els[i - 1] is Import && els[i] is Import {
        Seq::empty()
    } else {
        "\n"@
    }
}

/// The rendering of the first `i` elements.
pub open spec fn pretty_upto(els: Seq<ElementModel>, i: int) -> Seq<char>
    decreases i,
{
    if 0 < i <= els.len() {
        pretty_upto(els, i - 1) + separator(els, i - 1) + element_text(els[i - 1])
    } else {
        Seq::empty()
    }
}

/// The canonical text of a sequence of elements.
pub open spec fn pretty_model(els: Seq<ElementModel>) -> Seq<char> {
    pretty_upto(els, els.len() as int)
}

pub proof fn lemma_comments_text_concat(a: Seq<Seq<char>>, b: Seq<Seq<char>>)
    ensures
        comments_text(a + b) == comments_text(a) + comments_text(b),
    decreases b.len(),
{
    if b.len() == 0 {
        assert(a + b =~= a);
        assert(comments_text(b) =~= Seq::<char>::empty());
        assert(comments_text(a) + comments_text(b) =~= comments_text(a));
    } else {
        lemma_comments_text_concat(a, b.drop_last());
        assert((a + b).drop_last() =~= a + b.drop_last());
        assert((a + b).last() == b.last());
        assert(comments_text(a + b) =~= comments_text(a) + comments_text(b));
    }
}

fn digit(d: u64) -> (c: char)
    requires
        d < 10,
    ensures
        c == digit_char(d as nat),
{
    if d == 0 {
        '0'
    } else if d == 1 {
        '1'
    } else if d == 2 {
        '2'
    } else if d == 3 {
        '3'
    } else if d == 4 {
        '4'
    } else if d == 5 {
        '5'
    } else if d == 6 {
        '6'
    } else if d == 7 {
        '7'
    } else if d == 8 {
        '8'
    } else {
        '9'
    }
}

fn push_digits(n: u64, cs: &mut Vec<char>)
    ensures
        final(cs)@ == old(cs)@ + nat_text(n as nat),
    decreases n,
{
    if n < 10 {
        cs.push(digit(n));
    } else {
        push_digits(n / 10, cs);
        cs.push(digit(n % 10));
        proof {
            assert(final(cs)@ =~= old(cs)@ + nat_text(n as nat));
        }
    }
}

/// Appends the decimal digits of `n`.
fn append_nat(out: &mut String, n: u64)
    ensures
        final(out)@ == old(out)@ + nat_text(n as nat),
{
    let mut cs: Vec<char> = Vec::new();
    push_digits(n, &mut cs);
    proof {
        assert(cs@ =~= nat_text(n as nat));
    }
    let t = crate::text::string_between(&cs, 0, cs.len());
    proof {
        assert(cs@.subrange(0, cs@.len() as int) =~= cs@);
    }
    out.append(t.as_str());
}

fn append_int(out: &mut String, v: i64)
    ensures
        final(out)@ == old(out)@ + int_text(v as int),
{
    if v < 0 {
        out.append("-");
        proof {
            reveal_strlit("-");
        }
        let m: u64 = (0i128 - v as i128) as u64;
        append_nat(out, m);
        proof {
            assert(final(out)@ =~= old(out)@ + int_text(v as int));
        }
    } else {
        append_nat(out, v as u64);
    }
}

/// The canonical text of a path: its segments joined with `::`.
pub fn namespace_to_string(namespace: &Namespace) -> (r: String)
    ensures
        r@ == join_path(namespace.deep_view()),
{
    namespace.to_string()
}

fn append_param(out: &mut String, p: &Parameter)
    ensures
        final(out)@ == old(out)@ + param_text(p.deep_view()),
{
    out.append(p.name.as_str());
    match &p.value {
        Some(v) => {
            out.append(" = \"");
            out.append(v.as_str());
            out.append("\"");
            proof {
                assert(final(out)@ =~= old(out)@ + param_text(p.deep_view()));
            }
        },
        None => {},
    }
}

/// The parameters of an attribute, separated by `, `.
pub fn parameters_to_string(parameters: &[Parameter]) -> (r: String)
    ensures
        r@ == params_text(parameters.deep_view()),
{
    let mut out = String::new();
    let ghost ps = parameters.deep_view();
    let mut i: usize = 0;
    while i < parameters.len()
        invariant
            i <= parameters@.len(),
            ps == parameters.deep_view(),
            out@ == params_text(ps.take(i as int)),
        decreases parameters@.len() - i,
    {
        proof {
            assert(ps.take(i + 1).drop_last() =~= ps.take(i as int));
        }
        if i > 0 {
            out.append(", ");
        }
        append_param(&mut out, &parameters[i]);
        proof {
            if i == 0 {
                assert(ps.take(1) =~= seq![ps[0]]);
            }
            assert(out@ =~= params_text(ps.take(i + 1)));
        }
        i = i + 1;
    }
    proof {
        assert(ps.take(i as int) =~= ps);
    }
    out
}

fn append_attribute(out: &mut String, a: &Attribute)
    ensures
        final(out)@ == old(out)@ + attribute_text(a.deep_view()),
{
    let name = a.name.to_string();
    out.append(name.as_str());
    if a.parameters.len() > 0 {
        out.append("(");
        let ps = parameters_to_string(a.parameters.as_slice());
        out.append(ps.as_str());
        out.append(")");
        proof {
            assert(final(out)@ =~= old(out)@ + attribute_text(a.deep_view()));
        }
    }
}

/// `#[a, b(...)]` for the given attributes.
pub fn attributes_to_string(attributes: &[Attribute]) -> (r: String)
    ensures
        r@ == attributes_text(attributes.deep_view()),
{
    let mut out = String::new();
    let ghost xs = attributes.deep_view();
    let mut i: usize = 0;
    while i < attributes.len()
        invariant
            i <= attributes@.len(),
            xs == attributes.deep_view(),
            out@ == attribute_list_text(xs.take(i as int)),
        decreases attributes@.len() - i,
    {
        proof {
            assert(xs.take(i + 1).drop_last() =~= xs.take(i as int));
        }
        if i > 0 {
            out.append(", ");
        }
        append_attribute(&mut out, &attributes[i]);
        proof {
            if i == 0 {
                assert(xs.take(1) =~= seq![xs[0]]);
            }
            assert(out@ =~= attribute_list_text(xs.take(i + 1)));
        }
        i = i + 1;
    }
    proof {
        assert(xs.take(i as int) =~= xs);
    }
    let mut r = String::new();
    r.append("#[");
    r.append(out.as_str());
    r.append("]");
    proof {
        assert(r@ =~= attributes_text(xs));
    }
    r
}

fn append_attributes_line(out: &mut String, attributes: &[Attribute], indent: &str)
    ensures
        final(out)@ == old(out)@ + attributes_line(attributes.deep_view(), indent@),
{
    if attributes.len() > 0 {
        out.append(indent);
        let a = attributes_to_string(attributes);
        out.append(a.as_str());
        out.append("\n");
        proof {
            assert(final(out)@ =~= old(out)@ + attributes_line(attributes.deep_view(), indent@));
        }
    } else {
        proof {
            assert(final(out)@ =~= old(out)@ + attributes_line(attributes.deep_view(), indent@));
        }
    }
}

fn append_attributes_inline(out: &mut String, attributes: &Vec<Attribute>)
    ensures
        final(out)@ == old(out)@ + attributes_inline(attributes.deep_view()),
{
    if attributes.len() > 0 {
        let a = attributes_to_string(attributes.as_slice());
        out.append(a.as_str());
        out.append(" ");
        proof {
            assert(final(out)@ =~= old(out)@ + attributes_inline(attributes.deep_view()));
        }
    } else {
        proof {
            assert(final(out)@ =~= old(out)@ + attributes_inline(attributes.deep_view()));
        }
    }
}

fn append_type(out: &mut String, t: &TypeName)
    ensures
        final(out)@ == old(out)@ + type_text(t.deep_view()),
{
    if t.is_list {
        match t.count {
            Some(n) => {
                append_nat(out, n as u64);
                out.append(" of ");
            },
            None => {
                out.append("list of ");
            },
        }
    }
    let p = t.typ.to_string();
    out.append(p.as_str());
    proof {
        assert(final(out)@ =~= old(out)@ + type_text(t.deep_view()));
    }
}

fn append_comment_block(out: &mut String, c: &String)
    ensures
        final(out)@ == old(out)@ + comment_block(c@),
{
    let cs = crate::text::chars_of(c.as_str());
    let ghost parts = split_char_from(cs@, '\n', 0, 0);
    let ghost base = out@;
    let ghost done: Seq<Seq<char>> = Seq::empty();
    let mut i: usize = 0;
    let mut start: usize = 0;
    proof {
        assert(out@ =~= base + comment_lines_text(done));
    }
    while i < cs.len()
        invariant
            start <= i <= cs@.len(),
            cs@ == c@,
            parts == split_char_from(cs@, '\n', 0, 0),
            parts == done + split_char_from(cs@, '\n', i as int, start as int),
            out@ == base + comment_lines_text(done),
        decreases cs@.len() - i,
    {
        if cs[i] == '\n' {
            let line = crate::text::string_between(&cs, start, i);
            out.append("\t/// ");
            out.append(line.as_str());
            out.append("\n");
            proof {
                assert(split_char_from(cs@, '\n', i as int, start as int) == seq![line@]
                    + split_char_from(cs@, '\n', i + 1, i + 1));
                assert(parts =~= done.push(line@) + split_char_from(cs@, '\n', i + 1, i + 1));
                assert(done.push(line@).drop_last() =~= done);
                assert(out@ =~= base + comment_lines_text(done.push(line@)));
                done = done.push(line@);
            }
            i = i + 1;
            start = i;
        } else {
            i = i + 1;
        }
    }
    let line = crate::text::string_between(&cs, start, cs.len());
    out.append("\t/// ");
    out.append(line.as_str());
    out.append("\n");
    proof {
        assert(parts =~= done.push(line@));
        assert(done.push(line@).drop_last() =~= done);
        assert(out@ =~= base + comment_lines_text(done.push(line@)));
    }
}

fn append_comments(out: &mut String, comments: &Vec<String>)
    ensures
        final(out)@ == old(out)@ + comments_text(comments.deep_view()),
{
    let ghost cs = comments.deep_view();
    let ghost start = out@;
    let mut i: usize = 0;
    proof {
        assert(cs.take(0) =~= Seq::<Seq<char>>::empty());
        assert(out@ =~= start + comments_text(cs.take(0)));
    }
    while i < comments.len()
        invariant
            i <= comments@.len(),
            cs == comments.deep_view(),
            out@ == start + comments_text(cs.take(i as int)),
        decreases comments@.len() - i,
    {
        append_comment_block(out, &comments[i]);
        proof {
            assert(cs.take(i + 1).drop_last() =~= cs.take(i as int));
            assert(out@ =~= start + comments_text(cs.take(i + 1)));
        }
        i = i + 1;
    }
    proof {
        assert(cs.take(i as int) =~= cs);
    }
}

fn append_property(out: &mut String, pname: &String, t: &TypeName)
    ensures
        final(out)@ == old(out)@ + property_text((pname@, t.deep_view())),
{
    append_comments(out, &t.comments);
    append_attributes_line(out, t.attributes.as_slice(), "\t");
    out.append("\t");
    out.append(pname.as_str());
    out.append(": ");
    append_type(out, t);
    out.append(",\n");
    proof {
        assert(final(out)@ =~= old(out)@ + property_text((pname@, t.deep_view())));
    }
}

fn append_variant(out: &mut String, vname: &String, v: &crate::ast::EnumValue)
    ensures
        final(out)@ == old(out)@ + variant_text((vname@, v.deep_view())),
{
    append_comments(out, &v.comments);
    out.append("\t");
    append_attributes_inline(out, &v.attributes);
    out.append(vname.as_str());
    let ghost mid = out@;
    match v.value {
        Some(x) => {
            out.append(" = ");
            append_int(out, x);
        },
        None => {},
    }
    let ghost tail = out@.subrange(mid.len() as int, out@.len() as int);
    out.append(",\n");
    proof {
        assert(tail =~= match v.value {
            Some(x) => " = "@ + int_text(x as int),
            None => Seq::<char>::empty(),
        });
        assert(final(out)@ =~= old(out)@ + variant_text((vname@, v.deep_view())));
    }
}

/// A data type declaration, ending at its `};`.
#[verifier::rlimit(60)]
pub fn datatype_to_string(name: &str, datatype: &DataType) -> (r: String)
    ensures
        r@ == datatype_text(name@, datatype.deep_view()),
{
    let mut out = String::new();
    append_attributes_line(&mut out, datatype.attributes.as_slice(), "");
    proof {
        reveal_strlit("");
        assert(""@ =~= Seq::<char>::empty());
    }
    out.append("data ");
    out.append(name);
    out.append(" {\n");
    let ghost head = out@;
    let ghost ps = datatype.properties.deep_view();
    let mut i: usize = 0;
    proof {
        assert(ps.take(0) =~= Seq::<(Seq<char>, TypeNameModel)>::empty());
        assert(out@ =~= head + properties_text(ps.take(0)));
    }
    while i < datatype.properties.len()
        invariant
            i <= datatype.properties@.len(),
            ps == datatype.properties.deep_view(),
            out@ == head + properties_text(ps.take(i as int)),
        decreases datatype.properties@.len() - i,
    {
        let (pname, t) = &datatype.properties[i];
        append_property(&mut out, pname, t);
        proof {
            assert(ps.take(i + 1).drop_last() =~= ps.take(i as int));
            assert(ps[i as int] == (pname@, t.deep_view()));
            assert(out@ =~= head + properties_text(ps.take(i + 1)));
        }
        i = i + 1;
    }
    out.append("};");
    proof {
        assert(ps.take(i as int) =~= ps);
        assert(out@ =~= datatype_text(name@, datatype.deep_view()));
    }
    out
}

/// An enum declaration, ending at its `};`.
#[verifier::rlimit(60)]
pub fn enum_to_string(name: &str, en: &Enum) -> (r: String)
    ensures
        r@ == enum_text(name@, en.deep_view()),
{
    let mut out = String::new();
    append_attributes_line(&mut out, en.attributes.as_slice(), "");
    proof {
        reveal_strlit("");
        assert(""@ =~= Seq::<char>::empty());
    }
    out.append("enum ");
    out.append(name);
    out.append(" {\n");
    let ghost head = out@;
    let ghost vs = en.values.deep_view();
    let mut i: usize = 0;
    proof {
        assert(vs.take(0) =~= Seq::<(Seq<char>, EnumValueModel)>::empty());
        assert(out@ =~= head + variants_text(vs.take(0)));
    }
    while i < en.values.len()
        invariant
            i <= en.values@.len(),
            vs == en.values.deep_view(),
            out@ == head + variants_text(vs.take(i as int)),
        decreases en.values@.len() - i,
    {
        let (vname, v) = &en.values[i];
        append_variant(&mut out, vname, v);
        proof {
            assert(vs[i as int] == (vname@, v.deep_view()));
            assert(vs.take(i + 1).drop_last() =~= vs.take(i as int));
            assert(out@ =~= head + variants_text(vs.take(i + 1)));
        }
        i = i + 1;
    }
    out.append("};");
    proof {
        assert(vs.take(i as int) =~= vs);
        assert(out@ =~= enum_text(name@, en.deep_view()));
    }
    out
}

/// One argument of a function or event: `[attributes ]name: type`.
pub fn argument_to_string(name: &str, arg: &TypeName) -> (r: String)
    ensures
        r@ == argument_text((name@, arg.deep_view())),
{
    let mut out = String::new();
    append_attributes_inline(&mut out, &arg.attributes);
    out.append(name);
    out.append(": ");
    append_type(&mut out, arg);
    proof {
        assert(out@ =~= argument_text((name@, arg.deep_view())));
    }
    out
}

fn append_arguments(out: &mut String, args: &Vec<(String, TypeName)>)
    ensures
        final(out)@ == old(out)@ + arguments_text(args.deep_view()),
{
    let ghost xs = args.deep_view();
    let ghost start = out@;
    let mut i: usize = 0;
    proof {
        assert(xs.take(0) =~= Seq::<(Seq<char>, TypeNameModel)>::empty());
        assert(out@ =~= start + arguments_text(xs.take(0)));
    }
    while i < args.len()
        invariant
            i <= args@.len(),
            xs == args.deep_view(),
            out@ == start + arguments_text(xs.take(i as int)),
        decreases args@.len() - i,
    {
        proof {
            assert(xs.take(i + 1).drop_last() =~= xs.take(i as int));
        }
        if i > 0 {
            out.append(", ");
        }
        let a = argument_to_string(args[i].0.as_str(), &args[i].1);
        out.append(a.as_str());
        proof {
            if i == 0 {
                assert(xs.take(1) =~= seq![xs[0]]);
            }
            assert(out@ =~= start + arguments_text(xs.take(i + 1)));
        }
        i = i + 1;
    }
    proof {
        assert(xs.take(i as int) =~= xs);
    }
}

#[verifier::rlimit(60)]
fn append_dependency(out: &mut String, d: &Dependency, buf: &Vec<String>)
    ensures
        final(out)@ == old(out)@ + dependency_line(d.deep_view(), buf.deep_view()),
{
    append_comments(out, &d.comments);
    append_comments(out, buf);
    proof {
        lemma_comments_text_concat(d.comments.deep_view(), buf.deep_view());
    }
    append_attributes_line(out, d.attributes.as_slice(), "\t");
    out.append("\tdepends on ");
    let p = d.name.to_string();
    out.append(p.as_str());
    out.append(";\n");
    proof {
        assert(final(out)@ =~= old(out)@ + dependency_line(d.deep_view(), buf.deep_view()));
    }
}

/// The function's return type after ` -> `, or nothing.
pub open spec fn return_text(rt: Option<TypeNameModel>) -> Seq<char> {
    match rt {
        Some(t) => " -> "@ + type_text(t),
        None => Seq::empty(),
    }
}

fn append_return_type(out: &mut String, rt: &Option<TypeName>)
    ensures
        final(out)@ == old(out)@ + return_text(rt.deep_view()),
{
    match rt {
        Some(t) => {
            out.append(" -> ");
            append_type(out, t);
        },
        None => {
            proof {
                assert(final(out)@ =~= old(out)@ + return_text(rt.deep_view()));
            }
        },
    }
}

#[verifier::rlimit(60)]
fn append_function(out: &mut String, n: &String, f: &Function, buf: &Vec<String>)
    ensures
        final(out)@ == old(out)@ + function_line(n@, f.deep_view(), buf.deep_view()),
{
    append_comments(out, &f.comments);
    append_comments(out, buf);
    proof {
        lemma_comments_text_concat(f.comments.deep_view(), buf.deep_view());
    }
    append_attributes_line(out, f.attributes.as_slice(), "\t");
    out.append("\tfn ");
    out.append(n.as_str());
    out.append("(");
    append_arguments(out, &f.arguments);
    out.append(")");
    append_return_type(out, &f.return_type);
    out.append(";\n");
    proof {
        assert(final(out)@ =~= old(out)@ + function_line(n@, f.deep_view(), buf.deep_view()));
    }
}

#[verifier::rlimit(60)]
fn append_event(out: &mut String, n: &String, e: &Event, buf: &Vec<String>)
    ensures
        final(out)@ == old(out)@ + event_line(n@, e.deep_view(), buf.deep_view()),
{
    append_comments(out, &e.comments);
    append_comments(out, buf);
    proof {
        lemma_comments_text_concat(e.comments.deep_view(), buf.deep_view());
    }
    append_attributes_line(out, e.attributes.as_slice(), "\t");
    out.append("\tevent ");
    out.append(n.as_str());
    out.append("(");
    append_arguments(out, &e.arguments);
    out.append(");\n");
    proof {
        assert(final(out)@ =~= old(out)@ + event_line(n@, e.deep_view(), buf.deep_view()));
    }
}

#[verifier::rlimit(100)]
fn append_dependencies(out: &mut String, body: &[ServiceAstElement])
    ensures
        final(out)@ == old(out)@ + dependencies_upto(body.deep_view(), body@.len() as int),
{
    let ghost bv = body.deep_view();
    let ghost start = out@;
    let mut buf: Vec<String> = Vec::new();
    let mut i: usize = 0;
    proof {
        assert(buf.deep_view() =~= Seq::<Seq<char>>::empty());
        assert(out@ =~= start + dependencies_upto(bv, 0));
    }
    while i < body.len()
        invariant
            i <= body@.len(),
            bv == body.deep_view(),
            buf.deep_view() == comments_before(bv, i as int),
            out@ == start + dependencies_upto(bv, i as int),
        decreases body@.len() - i,
    {
        let ghost before = out@;
        match &body[i] {
            ServiceAstElement::Comment(c) => {
                let ghost old_buf = buf.deep_view();
                buf.push(c.deep_copy());
                proof {
                    assert(buf.deep_view() =~= old_buf.push(c@));
                    assert(out@ =~= start + dependencies_upto(bv, i + 1));
                }
            },
            ServiceAstElement::Dependency(d) => {
                append_dependency(out, d, &buf);
                proof {
                    assert(out@ =~= before + dependency_text(bv, i as int));
                    assert(out@ =~= start + dependencies_upto(bv, i + 1));
                }
                buf = Vec::new();
                proof {
                    assert(buf.deep_view() =~= Seq::<Seq<char>>::empty());
                }
            },
            _ => {
                buf = Vec::new();
                proof {
                    assert(buf.deep_view() =~= Seq::<Seq<char>>::empty());
                    assert(out@ =~= start + dependencies_upto(bv, i + 1));
                }
            },
        }
        i = i + 1;
    }
}

#[verifier::rlimit(100)]
fn append_functions(out: &mut String, body: &[ServiceAstElement])
    ensures
        final(out)@ == old(out)@ + functions_upto(body.deep_view(), body@.len() as int),
{
    let ghost bv = body.deep_view();
    let ghost start = out@;
    let mut buf: Vec<String> = Vec::new();
    let mut i: usize = 0;
    proof {
        assert(buf.deep_view() =~= Seq::<Seq<char>>::empty());
        assert(out@ =~= start + functions_upto(bv, 0));
    }
    while i < body.len()
        invariant
            i <= body@.len(),
            bv == body.deep_view(),
            buf.deep_view() == comments_before(bv, i as int),
            out@ == start + functions_upto(bv, i as int),
        decreases body@.len() - i,
    {
        let ghost before = out@;
        match &body[i] {
            ServiceAstElement::Comment(c) => {
                let ghost old_buf = buf.deep_view();
                buf.push(c.deep_copy());
                proof {
                    assert(buf.deep_view() =~= old_buf.push(c@));
                    assert(out@ =~= start + functions_upto(bv, i + 1));
                }
            },
            ServiceAstElement::Function(n, f) => {
                append_function(out, n, f, &buf);
                proof {
                    assert(out@ =~= before + function_text(bv, i as int));
                    assert(out@ =~= start + functions_upto(bv, i + 1));
                }
                buf = Vec::new();
                proof {
                    assert(buf.deep_view() =~= Seq::<Seq<char>>::empty());
                }
            },
            _ => {
                buf = Vec::new();
                proof {
                    assert(buf.deep_view() =~= Seq::<Seq<char>>::empty());
                    assert(out@ =~= start + functions_upto(bv, i + 1));
                }
            },
        }
        i = i + 1;
    }
}

#[verifier::rlimit(100)]
fn append_events(out: &mut String, body: &[ServiceAstElement])
    ensures
        final(out)@ == old(out)@ + events_upto(body.deep_view(), body@.len() as int),
{
    let ghost bv = body.deep_view();
    let ghost start = out@;
    let mut buf: Vec<String> = Vec::new();
    let mut i: usize = 0;
    proof {
        assert(buf.deep_view() =~= Seq::<Seq<char>>::empty());
        assert(out@ =~= start + events_upto(bv, 0));
    }
    while i < body.len()
        invariant
            i <= body@.len(),
            bv == body.deep_view(),
            buf.deep_view() == comments_before(bv, i as int),
            out@ == start + events_upto(bv, i as int),
        decreases body@.len() - i,
    {
        let ghost before = out@;
        match &body[i] {
            ServiceAstElement::Comment(c) => {
                let ghost old_buf = buf.deep_view();
                buf.push(c.deep_copy());
                proof {
                    assert(buf.deep_view() =~= old_buf.push(c@));
                    assert(out@ =~= start + events_upto(bv, i + 1));
                }
            },
            ServiceAstElement::Event(n, e) => {
                append_event(out, n, e, &buf);
                proof {
                    assert(out@ =~= before + event_text(bv, i as int));
                    assert(out@ =~= start + events_upto(bv, i + 1));
                }
                buf = Vec::new();
                proof {
                    assert(buf.deep_view() =~= Seq::<Seq<char>>::empty());
                }
            },
            _ => {
                buf = Vec::new();
                proof {
                    assert(buf.deep_view() =~= Seq::<Seq<char>>::empty());
                    assert(out@ =~= start + events_upto(bv, i + 1));
                }
            },
        }
        i = i + 1;
    }
}

/// A service declaration, ending at its `};`: its dependencies, a blank line,
/// its functions, a blank line and its events.
pub fn service_to_string(name: &str, service: &[ServiceAstElement], attributes: &[Attribute]) -> (r: String)
    ensures
        r@ == service_text(name@, service.deep_view(), attributes.deep_view()),
{
    let mut out = String::new();
    append_attributes_line(&mut out, attributes, "");
    proof {
        reveal_strlit("");
        assert(""@ =~= Seq::<char>::empty());
    }
    out.append("service ");
    out.append(name);
    out.append(" {\n");
    append_dependencies(&mut out, service);
    out.append("\n");
    append_functions(&mut out, service);
    out.append("\n");
    append_events(&mut out, service);
    out.append("};");
    proof {
        assert(out@ =~= service_text(name@, service.deep_view(), attributes.deep_view()));
    }
    out
}

fn append_element(out: &mut String, el: &AstElement)
    ensures
        final(out)@ == old(out)@ + element_text(el.deep_view()),
{
    match el {
        AstElement::Comment(c) => {
            out.append("/// ");
            out.append(c.as_str());
            out.append("\n");
        },
        AstElement::Import(im) => {
            append_attributes_line(out, im.attributes.as_slice(), "");
            proof {
                reveal_strlit("");
                assert(""@ =~= Seq::<char>::empty());
            }
            out.append("import ");
            let p = im.path.to_string();
            out.append(p.as_str());
            out.append(";\n");
        },
        AstElement::DataType(n, d) => {
            let t = datatype_to_string(n.as_str(), d);
            out.append(t.as_str());
            out.append("\n");
        },
        AstElement::Enum(n, e) => {
            let t = enum_to_string(n.as_str(), e);
            out.append(t.as_str());
            out.append("\n");
        },
        AstElement::Service(n, body, attrs) => {
            let t = service_to_string(n.as_str(), body.as_slice(), attrs.as_slice());
            out.append(t.as_str());
            out.append("\n");
        },
    }
    proof {
        assert(final(out)@ =~= old(out)@ + element_text(el.deep_view()));
    }
}

/// The canonical text of the raw elements of a file.
pub fn pretty(raw: &[AstElement]) -> (r: String)
    ensures
        r@ == pretty_model(raw.deep_view()),
{
    let ghost els = raw.deep_view();
    let mut out = String::new();
    let mut i: usize = 0;
    proof {
        assert(out@ =~= pretty_upto(els, 0));
    }
    while i < raw.len()
        invariant
            i <= raw@.len(),
            els == raw.deep_view(),
            out@ == pretty_upto(els, i as int),
        decreases raw@.len() - i,
    {
        let ghost before = out@;
        if i > 0 {
            let prev_comment = match &raw[i - 1] {
                AstElement::Comment(_) => true,
                _ => false,
            };
            let prev_import = match &raw[i - 1] {
                AstElement::Import(_) => true,
                _ => false,
            };
            let this_import = match &raw[i] {
                AstElement::Import(_) => true,
                _ => false,
            };
            if !prev_comment && !(prev_import && this_import) {
                out.append("\n");
            }
        }
        proof {
            assert(out@ =~= before + separator(els, i as int));
        }
        append_element(&mut out, &raw[i]);
        proof {
            assert(out@ =~= pretty_upto(els, i + 1));
        }
        i = i + 1;
    }
    out
}

/// A parameter in display form: `name` or `name = value`, without quotes.
pub open spec fn param_display(p: ParameterModel) -> Seq<char> {
    match p.value {
        Some(v) => p.name + " = "@ + v,
        None => p.name,
    }
}

pub open spec fn params_display(ps: Seq<ParameterModel>) -> Seq<char>
    decreases ps.len(),
{
    if ps.len() == 0 {
        Seq::empty()
    } else if ps.len() == 1 {
        param_display(ps[0])
    } else {
        params_display(ps.drop_last()) + ", "@ + param_display(ps.last())
    }
}

/// An attribute in display form: `name`, or `name(params)` where it has
/// parameters.
pub open spec fn attribute_display(a: AttributeModel) -> Seq<char> {
    if a.parameters.len() == 0 {
        join_path(a.name)
    } else {
        join_path(a.name) + "("@ + params_display(a.parameters) + ")"@
    }
}

impl Attribute {
    /// The attribute in display form, with parameter values unquoted.
    pub fn to_string(&self) -> (r: String)
        ensures
            r@ == attribute_display(self.deep_view()),
    {
        let mut out = self.name.to_string();
        if self.parameters.len() > 0 {
            let ghost head = out@;
            out.append("(");
            let ghost ps = self.parameters.deep_view();
            let ghost start = out@;
            let mut i: usize = 0;
            proof {
                assert(ps.take(0) =~= Seq::<ParameterModel>::empty());
                assert(out@ =~= start + params_display(ps.take(0)));
            }
            while i < self.parameters.len()
                invariant
                    i <= self.parameters@.len(),
                    ps == self.parameters.deep_view(),
                    out@ == start + params_display(ps.take(i as int)),
                decreases self.parameters@.len() - i,
            {
                proof {
                    assert(ps.take(i + 1).drop_last() =~= ps.take(i as int));
                }
                if i > 0 {
                    out.append(", ");
                }
                let p = &self.parameters[i];
                out.append(p.name.as_str());
                match &p.value {
                    Some(v) => {
                        out.append(" = ");
                        out.append(v.as_str());
                    },
                    None => {},
                }
                proof {
                    if i == 0 {
                        assert(ps.take(1) =~= seq![ps[0]]);
                    }
                    assert(out@ =~= start + params_display(ps.take(i + 1)));
                }
                i = i + 1;
            }
            out.append(")");
            proof {
                assert(ps.take(i as int) =~= ps);
                assert(out@ =~= attribute_display(self.deep_view()));
            }
        }
        out
    }
}

impl Dependency {
    /// The dependency in display form: its path.
    pub fn to_string(&self) -> (r: String)
        ensures
            r@ == join_path(self.name.deep_view()),
    {
        self.name.to_string()
    }
}

} // verus!
