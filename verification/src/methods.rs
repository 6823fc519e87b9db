//! Methods of lists, strings and dictionaries.

use crate::builtins::{count_number, utf8_len};
use crate::display::{show, value_text, write_value};
use crate::host::{
    answer_flag, answer_index, answer_parsed, compare, from_count, host_deterministic,
    host_ready, oracle_of, parse_number, to_index, Answer, CompareOp, Query, Reply, Request,
};
use crate::text::{
    same_text,
    begins_with, byte_length, chars_of, decimal, decimal_text, finishes_with, lowercase, occurs_in,
    push_char, push_text, replace_text, replaced, reversed, split_pieces, split_text, text_contains,
    text_ends_with, text_of, text_starts_with, to_lower, to_upper, trim_text, trimmed, uppercase,
};
use crate::value::{
    data_equal, entries_view, lemma_values_view_len, lemma_values_view_push,
    lemma_values_view_subrange, result_view, values_view, Data, Value,
};
use vstd::prelude::*;

verus! {

/// An argument read as text: a string as it is, another value as printed.
pub open spec fn text_arg(o: spec_fn(Query) -> Answer, v: Data) -> Seq<char> {
    match v {
        Data::Str(s) => s,
        _ => show(o, v),
    }
}

/// Position of the first entry with key `k`, or -1.
pub open spec fn key_index<V>(entries: Seq<(Seq<char>, V)>, k: Seq<char>) -> int
    decreases entries.len(),
{
    if entries.len() == 0 {
        -1
    } else if key_index(entries.drop_last(), k) >= 0 {
        key_index(entries.drop_last(), k)
    } else if entries.last().0 == k {
        entries.len() - 1
    } else {
        -1
    }
}

/// The value under key `k`.
pub open spec fn dict_get<V>(entries: Seq<(Seq<char>, V)>, k: Seq<char>) -> Option<V> {
    let i = key_index(entries, k);
    if i >= 0 {
        Some(entries[i].1)
    } else {
        None
    }
}

/// Storing `v` under key `k`: the entry of `k` is changed in place, or a new
/// entry is appended.
pub open spec fn dict_insert<V>(entries: Seq<(Seq<char>, V)>, k: Seq<char>, v: V) -> Seq<
    (Seq<char>, V),
> {
    let i = key_index(entries, k);
    if i >= 0 {
        entries.update(i, (k, v))
    } else {
        entries.push((k, v))
    }
}

pub proof fn lemma_key_index<V>(entries: Seq<(Seq<char>, V)>, k: Seq<char>)
    ensures
        -1 <= key_index(entries, k) < entries.len(),
        key_index(entries, k) >= 0 ==> entries[key_index(entries, k)].0 == k,
        forall|j: int|
            0 <= j < entries.len() && (j < key_index(entries, k) || key_index(entries, k) == -1)
                ==> #[trigger] entries[j].0 != k,
    decreases entries.len(),
{
    if entries.len() > 0 {
        lemma_key_index(entries.drop_last(), k);
        assert forall|j: int|
            0 <= j < entries.len() && (j < key_index(entries, k) || key_index(entries, k) == -1)
                implies #[trigger] entries[j].0 != k by {
            if j < entries.len() - 1 {
                assert(entries.drop_last()[j] == entries[j]);
            }
        }
        if key_index(entries.drop_last(), k) >= 0 {
            assert(entries.drop_last()[key_index(entries.drop_last(), k)] == entries[key_index(
                entries.drop_last(),
                k,
            )]);
        }
    }
}

pub proof fn lemma_key_index_is<V>(entries: Seq<(Seq<char>, V)>, k: Seq<char>, i: int)
    requires
        0 <= i < entries.len(),
        entries[i].0 == k,
        forall|j: int| 0 <= j < i ==> #[trigger] entries[j].0 != k,
    ensures
        key_index(entries, k) == i,
    decreases entries.len(),
{
    lemma_key_index(entries, k);
    if i < entries.len() - 1 {
        lemma_key_index_is(entries.drop_last(), k, i);
    } else {
        lemma_key_index(entries.drop_last(), k);
        if key_index(entries.drop_last(), k) >= 0 {
            let m = key_index(entries.drop_last(), k);
            assert(entries.drop_last()[m] == entries[m]);
        }
    }
}

/// Position of the first entry whose key is `k`, or `None`.
pub(crate) fn find_key<V>(entries: &Vec<(String, V)>, k: &str) -> (r: Option<usize>)
    ensures
        match r {
            Some(i) => key_index(keys_of(entries@), k@) == i as int,
            None => key_index(keys_of(entries@), k@) == -1,
        },
{
    let ghost ks = keys_of(entries@);
    let n = entries.len();
    for i in 0..n
        invariant
            n == entries@.len(),
            ks == keys_of(entries@),
            forall|j: int| 0 <= j < i ==> #[trigger] ks[j].0 != k@,
    {
        if same_text(entries[i].0.as_str(), k) {
            proof {
                lemma_key_index_is(ks, k@, i as int);
            }
            return Some(i);
        }
    }
    proof {
        lemma_key_index(ks, k@);
        if key_index(ks, k@) >= 0 {
            assert(ks[key_index(ks, k@)].0 == k@);
        }
    }
    None
}

/// The keys of entries, with the entries themselves.
pub open spec fn keys_of<V>(entries: Seq<(String, V)>) -> Seq<(Seq<char>, V)> {
    entries.map_values(|e: (String, V)| (e.0@, e.1))
}

pub proof fn lemma_keys_of_entries(entries: Seq<(String, Value)>, k: Seq<char>)
    ensures
        key_index(keys_of(entries), k) == key_index(entries_view(entries), k),
    decreases entries.len(),
{
    if entries.len() > 0 {
        lemma_keys_of_entries(entries.drop_last(), k);
        assert(keys_of(entries).drop_last() =~= keys_of(entries.drop_last()));
        assert(entries_view(entries).drop_last() =~= entries_view(entries.drop_last()));
    }
}

/// Whether a list has an element equal (as `==` sees it) to `x`.
pub open spec fn list_has(items: Seq<Data>, x: Data) -> bool {
    exists|j: int| 0 <= j < items.len() && data_equal(#[trigger] items[j], x)
}

/// The elements of a list, as printed, joined by a separator.
pub open spec fn join_shown(o: spec_fn(Query) -> Answer, items: Seq<Data>, sep: Seq<char>) -> Seq<
    char,
>
    decreases items.len(),
{
    if items.len() == 0 {
        Seq::empty()
    } else if items.len() == 1 {
        show(o, items[0])
    } else {
        join_shown(o, items.drop_last(), sep) + sep + show(o, items.last())
    }
}

/// Lexicographic order of texts by character: -1, 0 or 1.
pub open spec fn text_order(a: Seq<char>, b: Seq<char>) -> int
    decreases a.len(),
{
    if a.len() == 0 {
        if b.len() == 0 {
            0
        } else {
            -1
        }
    } else if b.len() == 0 {
        1
    } else if (a[0] as u32) < (b[0] as u32) {
        -1
    } else if (a[0] as u32) > (b[0] as u32) {
        1
    } else {
        text_order(a.drop_first(), b.drop_first())
    }
}

/// The order `sort()` uses: numbers by the host's comparisons (unordered
/// numbers count as equal), strings lexicographically, anything else equal.
pub open spec fn sort_order(o: spec_fn(Query) -> Answer, a: Data, b: Data) -> int {
    match (a, b) {
        (Data::Number(x), Data::Number(y)) => if answer_flag(o(Query::Compare(CompareOp::Less, x, y))) {
            -1
        } else if answer_flag(o(Query::Compare(CompareOp::Greater, x, y))) {
            1
        } else {
            0
        },
        (Data::Str(x), Data::Str(y)) => text_order(x, y),
        _ => 0,
    }
}

/// Where `x` goes in `sorted`: after the last element that is not greater.
pub open spec fn insert_position(o: spec_fn(Query) -> Answer, sorted: Seq<Data>, x: Data) -> nat
    decreases sorted.len(),
{
    if sorted.len() == 0 {
        0
    } else if sort_order(o, sorted.last(), x) == 1 {
        insert_position(o, sorted.drop_last(), x)
    } else {
        sorted.len()
    }
}

/// A list sorted by insertion, which keeps equal elements in their order.
pub open spec fn sorted_list(o: spec_fn(Query) -> Answer, items: Seq<Data>) -> Seq<Data>
    decreases items.len(),
{
    if items.len() == 0 {
        Seq::empty()
    } else {
        let s = sorted_list(o, items.drop_last());
        s.insert(insert_position(o, s, items.last()) as int, items.last())
    }
}

/// What a method of a list, a string or a dictionary gives.
pub open spec fn prim_method(
    o: spec_fn(Query) -> Answer,
    obj: Data,
    m: Seq<char>,
    args: Seq<Data>,
) -> Result<Data, Seq<char>> {
    match obj {
        Data::List(items) => list_method(o, items, m, args),
        Data::Str(s) => string_method(o, s, m, args),
        Data::Dict(entries) => dict_method(o, entries, m, args),
        _ => Err(crate::value::type_label_of(obj) + " does not support method calls"@),
    }
}

/// Methods of lists.
pub open spec fn list_method(o: spec_fn(Query) -> Answer, items: Seq<Data>, m: Seq<char>, args: Seq<
    Data,
>) -> Result<Data, Seq<char>> {
    if m == "append"@ || m == "push"@ {
        if args.len() != 1 {
            Err("append() takes 1 argument"@)
        } else {
            Ok(Data::List(items.push(args[0])))
        }
    } else if m == "pop"@ {
        if items.len() == 0 {
            Err("pop() on empty list"@)
        } else {
            Ok(Data::List(items.drop_last()))
        }
    } else if m == "len"@ || m == "length"@ {
        Ok(Data::Number(count_number(o, items.len() as usize)))
    } else if m == "contains"@ {
        if args.len() != 1 {
            Err("contains() takes 1 argument"@)
        } else {
            Ok(Data::Boolean(list_has(items, args[0])))
        }
    } else if m == "reverse"@ {
        Ok(Data::List(items.reverse()))
    } else if m == "sort"@ {
        Ok(Data::List(sorted_list(o, items)))
    } else if m == "join"@ {
        if args.len() != 1 {
            Err("join() takes 1 separator argument"@)
        } else {
            Ok(Data::Str(join_shown(o, items, text_arg(o, args[0]))))
        }
    } else if m == "first"@ {
        if items.len() == 0 {
            Err("first() on empty list"@)
        } else {
            Ok(items[0])
        }
    } else if m == "last"@ {
        if items.len() == 0 {
            Err("last() on empty list"@)
        } else {
            Ok(items.last())
        }
    } else {
        Err("List has no method '"@ + m + "'"@)
    }
}

/// A number argument used as an index, or `None` when it is not a number.
pub open spec fn index_arg(o: spec_fn(Query) -> Answer, v: Data) -> Option<usize> {
    match v {
        Data::Number(n) => Some(answer_index(o(Query::ToIndex(n)))),
        _ => None,
    }
}

/// Methods of strings.
pub open spec fn string_method(o: spec_fn(Query) -> Answer, s: Seq<char>, m: Seq<char>, args: Seq<
    Data,
>) -> Result<Data, Seq<char>> {
    if m == "upper"@ {
        Ok(Data::Str(uppercase(s)))
    } else if m == "lower"@ {
        Ok(Data::Str(lowercase(s)))
    } else if m == "trim"@ {
        Ok(Data::Str(trimmed(s)))
    } else if m == "len"@ || m == "length"@ {
        Ok(Data::Number(count_number(o, utf8_len(s))))
    } else if m == "reverse"@ {
        Ok(Data::Str(s.reverse()))
    } else if m == "split"@ {
        let sep = if args.len() == 0 {
            " "@
        } else {
            text_arg(o, args[0])
        };
        Ok(Data::List(split_pieces(s, sep).map_values(|p: Seq<char>| Data::Str(p))))
    } else if m == "contains"@ {
        if args.len() != 1 {
            Err("contains() takes 1 argument"@)
        } else {
            Ok(Data::Boolean(occurs_in(s, text_arg(o, args[0]))))
        }
    } else if m == "starts_with"@ {
        if args.len() != 1 {
            Err("starts_with() takes 1 argument"@)
        } else {
            Ok(Data::Boolean(begins_with(s, text_arg(o, args[0]))))
        }
    } else if m == "ends_with"@ {
        if args.len() != 1 {
            Err("ends_with() takes 1 argument"@)
        } else {
            Ok(Data::Boolean(finishes_with(s, text_arg(o, args[0]))))
        }
    } else if m == "replace"@ {
        if args.len() != 2 {
            Err("replace() takes 2 arguments"@)
        } else {
            Ok(Data::Str(replaced(s, text_arg(o, args[0]), text_arg(o, args[1]))))
        }
    } else if m == "char_at"@ {
        if args.len() != 1 {
            Err("char_at() takes 1 argument"@)
        } else {
            match index_arg(o, args[0]) {
                None => Err("char_at() index must be a number"@),
                Some(i) => if i < s.len() {
                    Ok(Data::Str(seq![s[i as int]]))
                } else {
                    Err("char_at("@ + decimal(i as nat) + ") out of bounds"@)
                },
            }
        }
    } else if m == "substring"@ {
        if args.len() != 2 {
            Err("substring() takes 2 arguments (start, end)"@)
        } else {
            match (index_arg(o, args[0]), index_arg(o, args[1])) {
                (Some(a), Some(b)) => Ok(
                    Data::Str(
                        if a <= b && b <= s.len() {
                            s.subrange(a as int, b as int)
                        } else {
                            Seq::empty()
                        },
                    ),
                ),
                _ => Err("substring() args must be numbers"@),
            }
        }
    } else if m == "to_num"@ || m == "to_number"@ {
        match answer_parsed(o(Query::Parse(s))) {
            Some(n) => Ok(Data::Number(n)),
            None => Err("Cannot parse '"@ + s + "' as number"@),
        }
    } else {
        Err("String has no method '"@ + m + "'"@)
    }
}

/// Methods of dictionaries.
pub open spec fn dict_method(
    o: spec_fn(Query) -> Answer,
    entries: Seq<(Seq<char>, Data)>,
    m: Seq<char>,
    args: Seq<Data>,
) -> Result<Data, Seq<char>> {
    if m == "keys"@ {
        Ok(Data::List(entries.map_values(|e: (Seq<char>, Data)| Data::Str(e.0))))
    } else if m == "values"@ {
        Ok(Data::List(entries.map_values(|e: (Seq<char>, Data)| e.1)))
    } else if m == "items"@ {
        Ok(
            Data::List(
                entries.map_values(|e: (Seq<char>, Data)| Data::List(seq![Data::Str(e.0), e.1])),
            ),
        )
    } else if m == "contains"@ || m == "has_key"@ {
        if args.len() != 1 {
            Err("has_key() takes 1 argument"@)
        } else {
            Ok(Data::Boolean(key_index(entries, text_arg(o, args[0])) >= 0))
        }
    } else if m == "len"@ || m == "length"@ {
        Ok(Data::Number(count_number(o, entries.len() as usize)))
    } else {
        Err("Dict has no method '"@ + m + "'"@)
    }
}

} // verus!

verus! {

/// An argument read as text.
pub(crate) fn arg_text<F: Fn(Request) -> Reply>(v: &Value, host: &F) -> (r: String)
    requires
        host_ready(*host),
        host_deterministic(*host),
    ensures
        r@ == text_arg(oracle_of(*host), v@),
{
    match v {
        Value::String(s) => s.clone(),
        _ => value_text(v, host),
    }
}

/// An argument used as an index.
fn arg_index<F: Fn(Request) -> Reply>(v: &Value, host: &F) -> (r: Option<usize>)
    requires
        host_ready(*host),
        host_deterministic(*host),
    ensures
        r == index_arg(oracle_of(*host), v@),
{
    match v {
        Value::Number(n) => Some(to_index(host, *n)),
        _ => None,
    }
}

fn list_contains(items: &Vec<Value>, x: &Value) -> (r: bool)
    ensures
        r == list_has(values_view(items@), x@),
{
    let ghost vs = values_view(items@);
    let n = items.len();
    for i in 0..n
        invariant
            n == items@.len(),
            vs == values_view(items@),
            forall|j: int| 0 <= j < i ==> !data_equal(#[trigger] vs[j], x@),
    {
        if items[i].equals(x) {
            assert(data_equal(vs[i as int], x@));
            return true;
        }
    }
    false
}

fn join_items<F: Fn(Request) -> Reply>(items: &Vec<Value>, sep: &str, host: &F) -> (r: String)
    requires
        host_ready(*host),
        host_deterministic(*host),
    ensures
        r@ == join_shown(oracle_of(*host), values_view(items@), sep@),
{
    let ghost o = oracle_of(*host);
    let ghost vs = values_view(items@);
    let mut out = String::new();
    let n = items.len();
    for i in 0..n
        invariant
            n == items@.len(),
            vs == values_view(items@),
            host_ready(*host),
            host_deterministic(*host),
            o == oracle_of(*host),
            out@ == join_shown(o, vs.subrange(0, i as int), sep@),
    {
        if i > 0 {
            push_text(&mut out, sep);
        }
        write_value(&mut out, &items[i], host);
        assert(vs.subrange(0, i + 1).drop_last() =~= vs.subrange(0, i as int));
        assert(out@ =~= join_shown(o, vs.subrange(0, i + 1), sep@));
    }
    assert(vs.subrange(0, n as int) =~= vs);
    out
}

fn chars_order(a: &Vec<char>, b: &Vec<char>) -> (r: i8)
    ensures
        r as int == text_order(a@, b@),
{
    let mut i: usize = 0;
    assert(a@.skip(0) =~= a@);
    assert(b@.skip(0) =~= b@);
    while i < a.len() && i < b.len()
        invariant
            i <= a@.len(),
            i <= b@.len(),
            text_order(a@, b@) == text_order(a@.skip(i as int), b@.skip(i as int)),
        decreases a.len() - i,
    {
        let x = a[i];
        let y = b[i];
        if (x as u32) < (y as u32) {
            return -1;
        }
        if (x as u32) > (y as u32) {
            return 1;
        }
        assert(a@.skip(i as int).drop_first() =~= a@.skip(i + 1));
        assert(b@.skip(i as int).drop_first() =~= b@.skip(i + 1));
        i = i + 1;
    }
    if i < a.len() {
        1
    } else if i < b.len() {
        -1
    } else {
        0
    }
}

fn order_of<F: Fn(Request) -> Reply>(a: &Value, b: &Value, host: &F) -> (r: i8)
    requires
        host_ready(*host),
        host_deterministic(*host),
    ensures
        r as int == sort_order(oracle_of(*host), a@, b@),
{
    match (a, b) {
        (Value::Number(x), Value::Number(y)) => {
            if compare(host, CompareOp::Less, *x, *y) {
                -1
            } else if compare(host, CompareOp::Greater, *x, *y) {
                1
            } else {
                0
            }
        },
        (Value::String(x), Value::String(y)) => {
            let xs = chars_of(x.as_str());
            let ys = chars_of(y.as_str());
            chars_order(&xs, &ys)
        },
        _ => 0,
    }
}

fn sort_values<F: Fn(Request) -> Reply>(items: Vec<Value>, host: &F) -> (r: Vec<Value>)
    requires
        host_ready(*host),
        host_deterministic(*host),
    ensures
        values_view(r@) == sorted_list(oracle_of(*host), values_view(items@)),
{
    let ghost o = oracle_of(*host);
    let ghost vs = values_view(items@);
    let mut rest = items;
    let mut taken: Vec<Value> = Vec::new();
    // Take the items from the back, then insert them from the front.
    while rest.len() > 0
        invariant
            host_ready(*host),
            host_deterministic(*host),
            values_view(rest@) + values_view(taken@).reverse() == vs,
        decreases rest.len(),
    {
        let ghost before_rest = rest@;
        let ghost before_taken = taken@;
        let x = rest.pop().unwrap();
        taken.push(x);
        assert(values_view(rest@) + values_view(taken@).reverse() =~= vs) by {
            lemma_values_view_push(before_taken, x);
            lemma_values_view_len(before_rest);
            lemma_values_view_len(rest@);
            assert(values_view(taken@).reverse() =~= seq![x@] + values_view(before_taken).reverse());
            assert(values_view(before_rest) =~= values_view(rest@).push(x@));
        }
    }
    assert(values_view(taken@).reverse() =~= vs);
    let mut out: Vec<Value> = Vec::new();
    let n = taken.len();
    let mut k: usize = 0;
    proof {
        assert(vs.subrange(0, 0) =~= Seq::<Data>::empty());
    }
    while taken.len() > 0
        invariant
            host_ready(*host),
            host_deterministic(*host),
            o == oracle_of(*host),
            n == vs.len(),
            k + taken@.len() == n,
            values_view(taken@).reverse() == vs.subrange(k as int, n as int),
            values_view(out@) == sorted_list(o, vs.subrange(0, k as int)),
        decreases taken.len(),
    {
        let ghost before_taken = taken@;
        let x = taken.pop().unwrap();
        proof {
            lemma_values_view_len(before_taken);
            lemma_values_view_len(taken@);
            lemma_values_view_subrange(before_taken, 0, before_taken.len() - 1);
            assert(values_view(before_taken).reverse()[0] == values_view(before_taken)[before_taken.len() - 1]);
            assert(vs.subrange(k as int, n as int)[0] == vs[k as int]);
        }
        let ghost sorted = values_view(out@);
        let mut j: usize = out.len();
        assert(sorted.subrange(0, j as int) =~= sorted);
        while j > 0 && order_of(&out[j - 1], &x, host) == 1
            invariant
                host_ready(*host),
                host_deterministic(*host),
                o == oracle_of(*host),
                j <= out@.len(),
                sorted == values_view(out@),
                insert_position(o, sorted, x@) == insert_position(o, sorted.subrange(0, j as int), x@),
            decreases j,
        {
            assert(sorted.subrange(0, j as int).drop_last() =~= sorted.subrange(0, j - 1));
            j = j - 1;
        }
        proof {
            if j > 0 {
                assert(sorted.subrange(0, j as int).last() == sorted[j - 1]);
            }
        }
        out.insert(j, x);
        proof {
            assert(vs.subrange(0, k + 1).drop_last() =~= vs.subrange(0, k as int));
            assert(values_view(out@) =~= sorted.insert(j as int, x@));
            assert(values_view(taken@).reverse() =~= vs.subrange(k + 1, n as int)) by {
                assert(values_view(before_taken) =~= values_view(taken@).push(x@));
                let r1 = values_view(before_taken).reverse();
                let r2 = values_view(taken@).reverse();
                assert forall|i: int| 0 <= i < r2.len() implies r2[i] == vs.subrange(k + 1, n as int)[i] by {
                    assert(r1[i + 1] == r2[i]);
                    assert(r1[i + 1] == vs.subrange(k as int, n as int)[i + 1]);
                }
            }
        }
        k = k + 1;
    }
    assert(vs.subrange(0, n as int) =~= vs);
    out
}

fn list_method_exec<F: Fn(Request) -> Reply>(
    items: Vec<Value>,
    method: &str,
    args: Vec<Value>,
    host: &F,
) -> (r: Result<Value, String>)
    requires
        host_ready(*host),
        host_deterministic(*host),
    ensures
        result_view(r) == list_method(oracle_of(*host), values_view(items@), method@, values_view(args@)),
{
    let ghost vs = values_view(items@);
    let ghost avs = values_view(args@);
    assert(forall|i: int| 0 <= i < args@.len() ==> avs[i] == args@[i]@);
    assert(forall|i: int| 0 <= i < items@.len() ==> vs[i] == items@[i]@);
    let mut items = items;
    let mut args = args;
    if same_text(method, "append") || same_text(method, "push") {
        if args.len() != 1 {
            let mut m = String::new();
            push_text(&mut m, "append() takes 1 argument");
            return Err(m);
        }
        let x = args.remove(0);
        items.push(x);
        assert(values_view(items@) =~= vs.push(avs[0]));
        Ok(Value::List(items))
    } else if same_text(method, "pop") {
        if items.len() == 0 {
            let mut m = String::new();
            push_text(&mut m, "pop() on empty list");
            return Err(m);
        }
        items.pop();
        assert(values_view(items@) =~= vs.drop_last());
        Ok(Value::List(items))
    } else if same_text(method, "len") || same_text(method, "length") {
        Ok(Value::Number(from_count(host, items.len())))
    } else if same_text(method, "contains") {
        if args.len() != 1 {
            let mut m = String::new();
            push_text(&mut m, "contains() takes 1 argument");
            return Err(m);
        }
        Ok(Value::Boolean(list_contains(&items, &args[0])))
    } else if same_text(method, "reverse") {
        let mut out: Vec<Value> = Vec::new();
        let n = items.len();
        while items.len() > 0
            invariant
                n == vs.len(),
                items@.len() <= n,
                values_view(items@) == vs.subrange(0, items@.len() as int),
                values_view(out@) == vs.subrange(items@.len() as int, n as int).reverse(),
            decreases items.len(),
        {
            let ghost before = items@;
            let ghost before_out = out@;
            let x = items.pop().unwrap();
            out.push(x);
            proof {
                lemma_values_view_len(before);
                lemma_values_view_len(items@);
                lemma_values_view_push(before_out, x);
                assert(values_view(before).drop_last() =~= values_view(items@));
                assert(vs.subrange(0, before.len() as int).drop_last() =~= vs.subrange(0, items@.len() as int));
                assert(values_view(before)[items@.len() as int] == x@);
                assert(vs.subrange(0, before.len() as int)[items@.len() as int] == vs[items@.len() as int]);
            }
            assert(values_view(out@) =~= vs.subrange(items@.len() as int, n as int).reverse());
        }
        assert(vs.subrange(0, n as int) =~= vs);
        Ok(Value::List(out))
    } else if same_text(method, "sort") {
        Ok(Value::List(sort_values(items, host)))
    } else if same_text(method, "join") {
        if args.len() != 1 {
            let mut m = String::new();
            push_text(&mut m, "join() takes 1 separator argument");
            return Err(m);
        }
        let sep = arg_text(&args[0], host);
        Ok(Value::String(join_items(&items, sep.as_str(), host)))
    } else if same_text(method, "first") {
        if items.len() == 0 {
            let mut m = String::new();
            push_text(&mut m, "first() on empty list");
            return Err(m);
        }
        Ok(items.remove(0))
    } else if same_text(method, "last") {
        if items.len() == 0 {
            let mut m = String::new();
            push_text(&mut m, "last() on empty list");
            return Err(m);
        }
        let x = items.pop().unwrap();
        Ok(x)
    } else {
        let mut m = String::new();
        push_text(&mut m, "List has no method '");
        push_text(&mut m, method);
        push_text(&mut m, "'");
        Err(m)
    }
}

} // verus!

verus! {

fn message(text: &str) -> (r: String)
    ensures
        r@ == text@,
{
    let mut m = String::new();
    push_text(&mut m, text);
    m
}

fn texts_to_values(parts: Vec<String>) -> (r: Vec<Value>)
    ensures
        values_view(r@) == parts@.map_values(|p: String| p@).map_values(|p: Seq<char>| Data::Str(p)),
{
    let ghost ps = parts@;
    let mut out: Vec<Value> = Vec::new();
    let mut rest = parts;
    let n = rest.len();
    let mut i: usize = 0;
    // consume from the front, keeping order
    let mut rev: Vec<String> = Vec::new();
    while rest.len() > 0
        invariant
            rest@ + rev@.reverse() == ps,
        decreases rest.len(),
    {
        let ghost b = rest@;
        let ghost br = rev@;
        let p = rest.pop().unwrap();
        rev.push(p);
        assert(rest@ + rev@.reverse() =~= ps) by {
            assert(rev@.reverse() =~= seq![p] + br.reverse());
            assert(b =~= rest@.push(p));
        }
    }
    assert(rev@.reverse() =~= ps);
    while rev.len() > 0
        invariant
            i + rev@.len() == ps.len(),
            ps.len() <= usize::MAX,
            rev@.reverse() == ps.subrange(i as int, ps.len() as int),
            out@.len() == i,
            forall|j: int| 0 <= j < i ==> #[trigger] out@[j]@ == Data::Str(ps[j]@),
        decreases rev.len(),
    {
        let ghost br = rev@;
        let p = rev.pop().unwrap();
        proof {
            assert(br.reverse()[0] == p);
            assert(ps.subrange(i as int, ps.len() as int)[0] == ps[i as int]);
            assert(rev@.reverse() =~= ps.subrange(i + 1, ps.len() as int)) by {
                assert forall|j: int| 0 <= j < rev@.len() implies rev@.reverse()[j] == ps.subrange(
                    i + 1,
                    ps.len() as int,
                )[j] by {
                    assert(br.reverse()[j + 1] == rev@.reverse()[j]);
                    assert(ps.subrange(i as int, ps.len() as int)[j + 1] == ps[i + 1 + j]);
                }
            }
        }
        out.push(Value::String(p));
        i = i + 1;
    }
    proof {
        lemma_values_view_len(out@);
    }
    assert(values_view(out@) =~= ps.map_values(|p: String| p@).map_values(
        |p: Seq<char>| Data::Str(p),
    ));
    out
}

fn string_method_exec<F: Fn(Request) -> Reply>(
    s: String,
    method: &str,
    args: Vec<Value>,
    host: &F,
) -> (r: Result<Value, String>)
    requires
        host_ready(*host),
        host_deterministic(*host),
    ensures
        result_view(r) == string_method(oracle_of(*host), s@, method@, values_view(args@)),
{
    let ghost o = oracle_of(*host);
    let ghost avs = values_view(args@);
    assert(forall|i: int| 0 <= i < args@.len() ==> avs[i] == args@[i]@);
    if same_text(method, "upper") {
        Ok(Value::String(to_upper(s.as_str())))
    } else if same_text(method, "lower") {
        Ok(Value::String(to_lower(s.as_str())))
    } else if same_text(method, "trim") {
        Ok(Value::String(trim_text(s.as_str())))
    } else if same_text(method, "len") || same_text(method, "length") {
        Ok(Value::Number(from_count(host, byte_length(s.as_str()))))
    } else if same_text(method, "reverse") {
        Ok(Value::String(reversed(s.as_str())))
    } else if same_text(method, "split") {
        let sep = if args.len() == 0 {
            message(" ")
        } else {
            arg_text(&args[0], host)
        };
        let parts = split_text(s.as_str(), sep.as_str());
        let vals = texts_to_values(parts);
        Ok(Value::List(vals))
    } else if same_text(method, "contains") {
        if args.len() != 1 {
            return Err(message("contains() takes 1 argument"));
        }
        let t = arg_text(&args[0], host);
        Ok(Value::Boolean(text_contains(s.as_str(), t.as_str())))
    } else if same_text(method, "starts_with") {
        if args.len() != 1 {
            return Err(message("starts_with() takes 1 argument"));
        }
        let t = arg_text(&args[0], host);
        Ok(Value::Boolean(text_starts_with(s.as_str(), t.as_str())))
    } else if same_text(method, "ends_with") {
        if args.len() != 1 {
            return Err(message("ends_with() takes 1 argument"));
        }
        let t = arg_text(&args[0], host);
        Ok(Value::Boolean(text_ends_with(s.as_str(), t.as_str())))
    } else if same_text(method, "replace") {
        if args.len() != 2 {
            return Err(message("replace() takes 2 arguments"));
        }
        let from = arg_text(&args[0], host);
        let to = arg_text(&args[1], host);
        Ok(Value::String(replace_text(s.as_str(), from.as_str(), to.as_str())))
    } else if same_text(method, "char_at") {
        if args.len() != 1 {
            return Err(message("char_at() takes 1 argument"));
        }
        match arg_index(&args[0], host) {
            None => Err(message("char_at() index must be a number")),
            Some(i) => {
                let chars = chars_of(s.as_str());
                if i < chars.len() {
                    let mut t = String::new();
                    push_char(&mut t, chars[i]);
                    assert(t@ =~= seq![s@[i as int]]);
                    Ok(Value::String(t))
                } else {
                    let mut m = message("char_at(");
                    let d = decimal_text(i);
                    push_text(&mut m, d.as_str());
                    push_text(&mut m, ") out of bounds");
                    Err(m)
                }
            },
        }
    } else if same_text(method, "substring") {
        if args.len() != 2 {
            return Err(message("substring() takes 2 arguments (start, end)"));
        }
        let a = arg_index(&args[0], host);
        let b = arg_index(&args[1], host);
        match (a, b) {
            (Some(a), Some(b)) => {
                let chars = chars_of(s.as_str());
                if a <= b && b <= chars.len() {
                    Ok(Value::String(text_of(&chars, a, b)))
                } else {
                    Ok(Value::String(String::new()))
                }
            },
            _ => Err(message("substring() args must be numbers")),
        }
    } else if same_text(method, "to_num") || same_text(method, "to_number") {
        match parse_number(host, s.clone()) {
            Some(n) => Ok(Value::Number(n)),
            None => {
                let mut m = message("Cannot parse '");
                push_text(&mut m, s.as_str());
                push_text(&mut m, "' as number");
                Err(m)
            },
        }
    } else {
        let mut m = message("String has no method '");
        push_text(&mut m, method);
        push_text(&mut m, "'");
        Err(m)
    }
}

fn dict_method_exec<F: Fn(Request) -> Reply>(
    entries: Vec<(String, Value)>,
    method: &str,
    args: Vec<Value>,
    host: &F,
) -> (r: Result<Value, String>)
    requires
        host_ready(*host),
        host_deterministic(*host),
    ensures
        result_view(r) == dict_method(oracle_of(*host), entries_view(entries@), method@, values_view(args@)),
{
    let ghost es = entries_view(entries@);
    let ghost avs = values_view(args@);
    assert(forall|i: int| 0 <= i < args@.len() ==> avs[i] == args@[i]@);
    let n = entries.len();
    if same_text(method, "keys") {
        let mut out: Vec<Value> = Vec::new();
        for i in 0..n
            invariant
                n == entries@.len(),
                es == entries_view(entries@),
                out@.len() == i,
                forall|j: int| 0 <= j < i ==> #[trigger] out@[j]@ == Data::Str(es[j].0),
        {
            out.push(Value::String(entries[i].0.clone()));
        }
        proof {
            lemma_values_view_len(out@);
        }
        assert(values_view(out@) =~= es.map_values(|e: (Seq<char>, Data)| Data::Str(e.0)));
        Ok(Value::List(out))
    } else if same_text(method, "values") {
        let mut out: Vec<Value> = Vec::new();
        for i in 0..n
            invariant
                n == entries@.len(),
                es == entries_view(entries@),
                out@.len() == i,
                forall|j: int| 0 <= j < i ==> #[trigger] out@[j]@ == es[j].1,
        {
            out.push(entries[i].1.duplicate());
        }
        proof {
            lemma_values_view_len(out@);
        }
        assert(values_view(out@) =~= es.map_values(|e: (Seq<char>, Data)| e.1));
        Ok(Value::List(out))
    } else if same_text(method, "items") {
        let mut out: Vec<Value> = Vec::new();
        for i in 0..n
            invariant
                n == entries@.len(),
                es == entries_view(entries@),
                out@.len() == i,
                forall|j: int|
                    0 <= j < i ==> #[trigger] out@[j]@ == Data::List(
                        seq![Data::Str(es[j].0), es[j].1],
                    ),
        {
            let mut pair: Vec<Value> = Vec::new();
            pair.push(Value::String(entries[i].0.clone()));
            pair.push(entries[i].1.duplicate());
            assert(values_view(pair@) =~= seq![Data::Str(es[i as int].0), es[i as int].1]);
            out.push(Value::List(pair));
        }
        proof {
            lemma_values_view_len(out@);
        }
        assert(values_view(out@) =~= es.map_values(
            |e: (Seq<char>, Data)| Data::List(seq![Data::Str(e.0), e.1]),
        ));
        Ok(Value::List(out))
    } else if same_text(method, "contains") || same_text(method, "has_key") {
        if args.len() != 1 {
            return Err(message("has_key() takes 1 argument"));
        }
        let key = arg_text(&args[0], host);
        let found = find_key(&entries, key.as_str());
        proof {
            lemma_keys_of_entries(entries@, key@);
        }
        Ok(Value::Boolean(found.is_some()))
    } else if same_text(method, "len") || same_text(method, "length") {
        Ok(Value::Number(from_count(host, n)))
    } else {
        let mut m = message("Dict has no method '");
        push_text(&mut m, method);
        push_text(&mut m, "'");
        Err(m)
    }
}

/// Calls a method on a list, a string or a dictionary; other values (but
/// instances, which the evaluator handles) have no methods.
pub fn call_prim_method<F: Fn(Request) -> Reply>(
    obj: Value,
    method: &str,
    args: Vec<Value>,
    host: &F,
) -> (r: Result<Value, String>)
    requires
        host_ready(*host),
        host_deterministic(*host),
    ensures
        result_view(r) == prim_method(oracle_of(*host), obj@, method@, values_view(args@)),
{
    match obj {
        Value::List(items) => list_method_exec(items, method, args, host),
        Value::String(s) => string_method_exec(s, method, args, host),
        Value::Dict(entries) => dict_method_exec(entries, method, args, host),
        other => {
            let mut m = String::new();
            push_text(&mut m, other.type_label());
            push_text(&mut m, " does not support method calls");
            Err(m)
        },
    }
}

} // verus!
