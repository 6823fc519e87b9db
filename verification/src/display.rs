//! How values are printed.

use crate::host::{
    answer_text, format_number, host_deterministic, host_ready, oracle_of, Answer, Query, Reply,
    Request,
};
use crate::text::push_text;
use crate::value::{entries_view, names_view, values_view, Data, Value};
use vstd::prelude::*;

verus! {

/// The text of a value, as `print`, `str()` and string concatenation show
/// it. Numbers are printed by the host.
pub open spec fn show(o: spec_fn(Query) -> Answer, v: Data) -> Seq<char>
    decreases v, 1nat,
{
    match v {
        Data::Number(n) => answer_text(o(Query::Format(n))),
        Data::Str(s) => s,
        Data::Boolean(b) => if b {
            "true"@
        } else {
            "false"@
        },
        Data::Null => "null"@,
        Data::List(items) => "["@ + show_items(o, items) + "]"@,
        Data::Dict(entries) => "{"@ + show_entries(o, entries) + "}"@,
        Data::Function { name, params, .. } => "<function "@ + name + "("@ + join_names(
            params,
            ", "@,
        ) + ")>"@,
        Data::NativeFunction { name, .. } => "<native function "@ + name + ">"@,
        Data::Class { name, .. } => "<class "@ + name + ">"@,
        Data::Instance { class_name, .. } => "<"@ + class_name + " instance>"@,
    }
}

/// A value inside a list or a dictionary: strings are quoted.
pub open spec fn show_element(o: spec_fn(Query) -> Answer, v: Data) -> Seq<char>
    decreases v, 2nat,
{
    match v {
        Data::Str(s) => "\""@ + s + "\""@,
        _ => show(o, v),
    }
}

/// The elements of a list, separated by ", ".
pub open spec fn show_items(o: spec_fn(Query) -> Answer, items: Seq<Data>) -> Seq<char>
    decreases items, 0nat,
{
    if items.len() == 0 {
        Seq::empty()
    } else if items.len() == 1 {
        show_element(o, items[0])
    } else {
        show_items(o, items.subrange(0, items.len() - 1)) + ", "@ + show_element(
            o,
            items[items.len() - 1],
        )
    }
}

/// The entries of a dictionary, each `"key": value`, separated by ", ".
pub open spec fn show_entries(o: spec_fn(Query) -> Answer, entries: Seq<(Seq<char>, Data)>) -> Seq<
    char,
>
    decreases entries, 0nat,
{
    if entries.len() == 0 {
        Seq::empty()
    } else if entries.len() == 1 {
        show_entry(o, entries[0])
    } else {
        show_entries(o, entries.subrange(0, entries.len() - 1)) + ", "@ + show_entry(
            o,
            entries[entries.len() - 1],
        )
    }
}

/// One dictionary entry.
pub open spec fn show_entry(o: spec_fn(Query) -> Answer, entry: (Seq<char>, Data)) -> Seq<char>
    decreases entry, 0nat,
{
    "\""@ + entry.0 + "\": "@ + show_element(o, entry.1)
}

/// Names joined by a separator.
pub open spec fn join_names(names: Seq<Seq<char>>, sep: Seq<char>) -> Seq<char>
    decreases names.len(),
{
    if names.len() == 0 {
        Seq::empty()
    } else if names.len() == 1 {
        names[0]
    } else {
        join_names(names.drop_last(), sep) + sep + names.last()
    }
}

/// Appends the text of a value to `out`.
pub fn write_value<F: Fn(Request) -> Reply>(out: &mut String, v: &Value, host: &F)
    requires
        host_ready(*host),
        host_deterministic(*host),
    ensures
        final(out)@ == old(out)@ + show(oracle_of(*host), v@),
    decreases v, 1nat,
{
    let ghost o = oracle_of(*host);
    match v {
        Value::Number(n) => {
            let t = format_number(host, *n);
            push_text(out, t.as_str());
        },
        Value::String(s) => push_text(out, s.as_str()),
        Value::Boolean(b) => {
            if *b {
                push_text(out, "true");
            } else {
                push_text(out, "false");
            }
        },
        Value::Null => push_text(out, "null"),
        Value::List(items) => {
            push_text(out, "[");
            write_items_of(v, out, items, host);
            push_text(out, "]");
        },
        Value::Dict(entries) => {
            push_text(out, "{");
            write_entries_of(v, out, entries, host);
            push_text(out, "}");
        },
        Value::Function { name, params, .. } => {
            push_text(out, "<function ");
            push_text(out, name.as_str());
            push_text(out, "(");
            write_names(out, params, ", ");
            push_text(out, ")>");
        },
        Value::NativeFunction { name, .. } => {
            push_text(out, "<native function ");
            push_text(out, name.as_str());
            push_text(out, ">");
        },
        Value::Class { name, .. } => {
            push_text(out, "<class ");
            push_text(out, name.as_str());
            push_text(out, ">");
        },
        Value::Instance { class_name, .. } => {
            push_text(out, "<");
            push_text(out, class_name.as_str());
            push_text(out, " instance>");
        },
    }
    proof {
        reveal_with_fuel(show, 1);
    }
    assert(final(out)@ =~= old(out)@ + show(o, v@));
}

/// Appends the text of a list or dictionary element to `out`.
fn write_element<F: Fn(Request) -> Reply>(out: &mut String, v: &Value, host: &F)
    requires
        host_ready(*host),
        host_deterministic(*host),
    ensures
        final(out)@ == old(out)@ + show_element(oracle_of(*host), v@),
    decreases v, 2nat,
{
    match v {
        Value::String(s) => {
            push_text(out, "\"");
            push_text(out, s.as_str());
            push_text(out, "\"");
            assert(final(out)@ =~= old(out)@ + show_element(oracle_of(*host), v@));
        },
        _ => write_value(out, v, host),
    }
}

fn write_items_of<F: Fn(Request) -> Reply>(
    owner: &Value,
    out: &mut String,
    items: &Vec<Value>,
    host: &F,
)
    requires
        host_ready(*host),
        host_deterministic(*host),
        forall|i: int| 0 <= i < items@.len() ==> decreases_to!(owner => items@[i]),
    ensures
        final(out)@ == old(out)@ + show_items(oracle_of(*host), values_view(items@)),
    decreases owner, 0nat,
{
    let ghost o = oracle_of(*host);
    let ghost vs = values_view(items@);
    let n = items.len();
    for i in 0..n
        invariant
            n == items@.len(),
            vs == values_view(items@),
            host_ready(*host),
            host_deterministic(*host),
            o == oracle_of(*host),
            forall|j: int| 0 <= j < items@.len() ==> decreases_to!(owner => items@[j]),
            out@ == old(out)@ + show_items(o, vs.subrange(0, i as int)),
    {
        if i > 0 {
            push_text(out, ", ");
        }
        write_element(out, &items[i], host);
        assert(vs.subrange(0, i + 1).subrange(0, i as int) =~= vs.subrange(0, i as int));
        assert(vs.subrange(0, i + 1)[i as int] == items@[i as int]@);
        assert(out@ =~= old(out)@ + show_items(o, vs.subrange(0, i + 1)));
    }
    assert(vs.subrange(0, n as int) =~= vs);
}

fn write_entries_of<F: Fn(Request) -> Reply>(
    owner: &Value,
    out: &mut String,
    entries: &Vec<(String, Value)>,
    host: &F,
)
    requires
        host_ready(*host),
        host_deterministic(*host),
        forall|i: int| 0 <= i < entries@.len() ==> decreases_to!(owner => entries@[i].1),
    ensures
        final(out)@ == old(out)@ + show_entries(oracle_of(*host), entries_view(entries@)),
    decreases owner, 0nat,
{
    let ghost o = oracle_of(*host);
    let ghost es = entries_view(entries@);
    let n = entries.len();
    for i in 0..n
        invariant
            n == entries@.len(),
            es == entries_view(entries@),
            host_ready(*host),
            host_deterministic(*host),
            o == oracle_of(*host),
            forall|j: int| 0 <= j < entries@.len() ==> decreases_to!(owner => entries@[j].1),
            out@ == old(out)@ + show_entries(o, es.subrange(0, i as int)),
    {
        if i > 0 {
            push_text(out, ", ");
        }
        push_text(out, "\"");
        push_text(out, entries[i].0.as_str());
        push_text(out, "\": ");
        write_element(out, &entries[i].1, host);
        assert(es.subrange(0, i + 1).subrange(0, i as int) =~= es.subrange(0, i as int));
        assert(es.subrange(0, i + 1)[i as int] == es[i as int]);
        assert(es[i as int] == (entries@[i as int].0@, entries@[i as int].1@));
        assert(show_entry(o, es[i as int]) =~= "\""@ + entries@[i as int].0@ + "\": "@ + show_element(o, entries@[i as int].1@));
        assert(out@ =~= old(out)@ + show_entries(o, es.subrange(0, i + 1)));
    }
    assert(es.subrange(0, n as int) =~= es);
}

/// Appends names joined by a separator.
pub(crate) fn write_names(out: &mut String, names: &Vec<String>, sep: &str)
    ensures
        final(out)@ == old(out)@ + join_names(names_view(names@), sep@),
{
    let ghost ns = names_view(names@);
    let n = names.len();
    for i in 0..n
        invariant
            n == names@.len(),
            ns == names_view(names@),
            out@ == old(out)@ + join_names(ns.subrange(0, i as int), sep@),
    {
        if i > 0 {
            push_text(out, sep);
        }
        push_text(out, names[i].as_str());
        assert(ns.subrange(0, i + 1).drop_last() =~= ns.subrange(0, i as int));
        assert(out@ =~= old(out)@ + join_names(ns.subrange(0, i + 1), sep@));
    }
    assert(ns.subrange(0, n as int) =~= ns);
}

/// The text of a value.
pub fn value_text<F: Fn(Request) -> Reply>(v: &Value, host: &F) -> (r: String)
    requires
        host_ready(*host),
        host_deterministic(*host),
    ensures
        r@ == show(oracle_of(*host), v@),
{
    let mut out = String::new();
    write_value(&mut out, v, host);
    assert(out@ =~= show(oracle_of(*host), v@));
    out
}

} // verus!
