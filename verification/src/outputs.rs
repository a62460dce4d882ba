//! The outputs of a finished build.

use crate::pairs::{
    distinct_keys, law_map_of_last_pair_counts, lemma_map_of_distinct, lemma_map_of_keys, map_of,
};
use crate::text::{
    law_text_less_is_lexicographic, lemma_text_order_is_strict, lemma_text_order_is_transitive,
    lexicographically_before, text_less, text_order, TextOrder,
};
use vstd::prelude::*;

verus! {

/// The texts of `entries`.
pub open spec fn entry_texts(entries: Seq<(String, String)>) -> Seq<(Seq<char>, Seq<char>)> {
    Seq::new(entries.len(), |i: int| (entries[i].0@, entries[i].1@))
}

/// Whether the keys of `pairs` are in strictly ascending order.
pub open spec fn ascending(pairs: Seq<(Seq<char>, Seq<char>)>) -> bool {
    forall|i: int, j: int|
        0 <= i < j < pairs.len() ==> text_less(#[trigger] pairs[i].0, #[trigger] pairs[j].0)
}

/// The store paths of a build's outputs by output name, in the order of the names.
#[derive(Debug)]
pub struct OutputMap {
    entries: Vec<(String, String)>,
}

impl View for OutputMap {
    type V = Map<Seq<char>, Seq<char>>;

    closed spec fn view(&self) -> Map<Seq<char>, Seq<char>> {
        map_of(entry_texts(self.entries@))
    }
}

proof fn lemma_ascending_distinct(pairs: Seq<(Seq<char>, Seq<char>)>)
    requires
        ascending(pairs),
    ensures
        distinct_keys(pairs),
{
    assert forall|i: int, j: int| 0 <= i < j < pairs.len() implies #[trigger] pairs[i].0
        != #[trigger] pairs[j].0 by {
        assert(text_less(pairs[i].0, pairs[j].0));
        lemma_text_order_is_strict(pairs[i].0, pairs[j].0);
    }
}

/// What an ascending sequence holds with one pair set or put in at `at`.
proof fn lemma_map_of_put(
    before: Seq<(Seq<char>, Seq<char>)>,
    after: Seq<(Seq<char>, Seq<char>)>,
    at: int,
    key: Seq<char>,
    value: Seq<char>,
)
    requires
        ascending(before),
        ascending(after),
        (0 <= at < before.len() && before[at].0 == key && after == before.update(at, (key, value)))
            || (0 <= at <= before.len() && after == before.insert(at, (key, value))),
    ensures
        map_of(after) == map_of(before).insert(key, value),
{
    lemma_ascending_distinct(before);
    lemma_ascending_distinct(after);
    let wanted = map_of(before).insert(key, value);
    assert(after[at] == (key, value));
    lemma_map_of_distinct(after, at);
    assert forall|k: Seq<char>| #[trigger]
        map_of(after).dom().contains(k) <==> wanted.dom().contains(k) by {
        lemma_map_of_keys(after, k);
        lemma_map_of_keys(before, k);
        if k != key {
            if exists|i: int| 0 <= i < after.len() && #[trigger] after[i].0 == k {
                let i = choose|i: int| 0 <= i < after.len() && #[trigger] after[i].0 == k;
                let j = if after.len() == before.len() || i < at { i } else { i - 1 };
                assert(before[j].0 == k);
            }
            if exists|j: int| 0 <= j < before.len() && #[trigger] before[j].0 == k {
                let j = choose|j: int| 0 <= j < before.len() && #[trigger] before[j].0 == k;
                let i = if after.len() == before.len() || j < at { j } else { j + 1 };
                assert(after[i].0 == k);
            }
        }
    }
    assert(map_of(after).dom() =~= wanted.dom());
    assert forall|k: Seq<char>| wanted.dom().contains(k) implies #[trigger] map_of(after)[k]
        == wanted[k] by {
        if k != key {
            lemma_map_of_keys(before, k);
            let j = choose|j: int| 0 <= j < before.len() && #[trigger] before[j].0 == k;
            lemma_map_of_distinct(before, j);
            let i = if after.len() == before.len() || j < at { j } else { j + 1 };
            assert(after[i] == before[j]);
            lemma_map_of_distinct(after, i);
        }
    }
    assert(map_of(after) =~= wanted);
}

impl OutputMap {
    #[verifier::type_invariant]
    spec fn well_formed(self) -> bool {
        ascending(entry_texts(self.entries@))
    }

    /// No outputs.
    pub fn new() -> (map: OutputMap)
        ensures
            map@ == Map::<Seq<char>, Seq<char>>::empty(),
    {
        OutputMap { entries: Vec::new() }
    }

    /// Sets the path of the output `name`, in place of any that it has.
    pub fn insert(self, name: String, path: String) -> (map: OutputMap)
        ensures
            map@ == self@.insert(name@, path@),
    {
        proof {
            use_type_invariant(&self);
        }
        let mut entries = self.entries;
        let ghost before = entry_texts(entries@);
        let ghost key = name@;
        let ghost value = path@;
        let mut at: usize = 0;
        while at < entries.len()
            invariant
                at <= entries.len(),
                before == entry_texts(entries@),
                entries@ == self.entries@,
                self@ == map_of(before),
                ascending(before),
                key == name@,
                value == path@,
                forall|j: int| 0 <= j < at ==> text_less(#[trigger] before[j].0, key),
            ensures
                at < entries.len() ==> text_less(key, before[at as int].0),
            decreases entries.len() - at,
        {
            assert(before[at as int].0 == entries@[at as int].0@);
            match text_order(entries[at].0.as_str(), name.as_str()) {
                TextOrder::Less => {
                    at += 1;
                },
                TextOrder::Equal => {
                    entries.set(at, (name, path));
                    proof {
                        let after = entry_texts(entries@);
                        assert(after =~= before.update(at as int, (key, value)));
                        assert(ascending(after)) by {
                            assert forall|i: int, j: int| 0 <= i < j < after.len() implies text_less(
                                #[trigger] after[i].0,
                                #[trigger] after[j].0,
                            ) by {
                                assert(text_less(before[i].0, before[j].0));
                            }
                        }
                        lemma_map_of_put(before, after, at as int, key, value);
                    }
                    return OutputMap { entries };
                },
                TextOrder::Greater => {
                    break;
                },
            }
        }
        proof {
            assert forall|j: int| at <= j < before.len() implies text_less(
                key,
                #[trigger] before[j].0,
            ) by {
                if at < j {
                    assert(text_less(before[at as int].0, before[j].0));
                    lemma_text_order_is_transitive(key, before[at as int].0, before[j].0);
                }
            }
        }
        entries.insert(at, (name, path));
        proof {
            let after = entry_texts(entries@);
            assert(after =~= before.insert(at as int, (key, value)));
            assert(ascending(after)) by {
                assert forall|i: int, j: int| 0 <= i < j < after.len() implies text_less(
                    #[trigger] after[i].0,
                    #[trigger] after[j].0,
                ) by {
                    let a = if i < at { i } else { i - 1 };
                    let b = if j < at { j } else { j - 1 };
                    if i == at {
                        assert(text_less(key, before[b].0));
                    } else if j == at {
                        assert(text_less(before[a].0, key));
                    } else {
                        assert(text_less(before[a].0, before[b].0));
                    }
                }
            }
            lemma_map_of_put(before, after, at as int, key, value);
        }
        OutputMap { entries }
    }

    /// The outputs with their paths, in the order of the names.
    pub fn entries(&self) -> (entries: &Vec<(String, String)>)
        ensures
            ascending(entry_texts(entries@)),
            self@ == map_of(entry_texts(entries@)),
    {
        proof {
            use_type_invariant(self);
        }
        &self.entries
    }

    /// The path of the output `name`.
    pub fn get(&self, name: &str) -> (path: Option<&String>)
        ensures
            match path {
                Some(path) => self@.contains_key(name@) && self@[name@] == path@,
                None => !self@.contains_key(name@),
            },
    {
        proof {
            use_type_invariant(self);
        }
        let ghost texts = entry_texts(self.entries@);
        let mut i: usize = 0;
        while i < self.entries.len()
            invariant
                i <= self.entries.len(),
                texts == entry_texts(self.entries@),
                ascending(texts),
                self@ == map_of(texts),
                forall|j: int| 0 <= j < i ==> #[trigger] texts[j].0 != name@,
            decreases self.entries.len() - i,
        {
            assert(texts[i as int].0 == self.entries@[i as int].0@);
            if let TextOrder::Equal = text_order(self.entries[i].0.as_str(), name) {
                proof {
                    lemma_ascending_distinct(texts);
                    lemma_map_of_distinct(texts, i as int);
                }
                return Some(&self.entries[i].1);
            }
            i += 1;
        }
        proof {
            lemma_map_of_keys(texts, name@);
        }
        None
    }
}

/// A row of the `BuildOutputs` table: an output's name and its store path, as
/// text.
#[derive(Debug)]
pub struct OutputRow {
    pub name: String,
    pub path: Option<String>,
}

/// Holds of the rows that have a path.
pub open spec fn has_path() -> spec_fn(OutputRow) -> bool {
    |row: OutputRow| row.path is Some
}

/// A name and a path that were parsed, as the text of what they were parsed
/// into, or the error that one of them met with.
pub type ParsedOutput<E> = Result<(String, String), E>;

/// Whether `parsed` is what the parsers make of `row`: the name is parsed
/// first, and the path only if the name was accepted.
pub open spec fn row_parsed<E, N, P>(
    parse_name: N,
    parse_path: P,
    row: OutputRow,
    parsed: ParsedOutput<E>,
) -> bool where N: Fn(String) -> Result<String, E>, P: Fn(String) -> Result<String, E> {
    exists|name: Result<String, E>| #[trigger]
        parse_name.ensures((row.name,), name) && match name {
            Err(e) => parsed == Err::<(String, String), E>(e),
            Ok(name) => exists|path: Result<String, E>| #[trigger]
                parse_path.ensures((row.path->0,), path) && match path {
                    Err(e) => parsed == Err::<(String, String), E>(e),
                    Ok(path) => parsed == Ok::<(String, String), E>((name, path)),
                },
        }
}

/// Whether `parsed` is what the parsers make of `rows`, one by one, up to and
/// with the first error.
pub open spec fn rows_parsed<E, N, P>(
    parse_name: N,
    parse_path: P,
    rows: Seq<OutputRow>,
    parsed: Seq<ParsedOutput<E>>,
) -> bool where N: Fn(String) -> Result<String, E>, P: Fn(String) -> Result<String, E> {
    &&& parsed.len() <= rows.len()
    &&& forall|i: int|
        0 <= i < parsed.len() ==> row_parsed(parse_name, parse_path, rows[i], #[trigger] parsed[i])
    &&& forall|i: int| 0 <= i < parsed.len() - 1 ==> (#[trigger] parsed[i]) is Ok
    &&& parsed.len() == rows.len() || (parsed.len() > 0 && parsed.last() is Err)
}

/// The texts of what was parsed, where there was no error.
pub open spec fn parsed_texts<E>(parsed: Seq<ParsedOutput<E>>) -> Seq<(Seq<char>, Seq<char>)> {
    Seq::new(parsed.len(), |i: int| (parsed[i]->Ok_0.0@, parsed[i]->Ok_0.1@))
}

/// Whether `res` is what becomes of `parsed`: the first error, or else the map
/// of all the outputs.
pub open spec fn outputs_collected<E>(
    parsed: Seq<ParsedOutput<E>>,
    res: Result<OutputMap, E>,
) -> bool {
    match res {
        Ok(map) => {
            &&& forall|i: int| 0 <= i < parsed.len() ==> (#[trigger] parsed[i]) is Ok
            &&& map@ == map_of(parsed_texts(parsed))
        },
        Err(e) => exists|i: int|
            0 <= i < parsed.len() && #[trigger] parsed[i] == Err::<(String, String), E>(e) && forall|
                j: int,
            |
                0 <= j < i ==> (#[trigger] parsed[j]) is Ok,
    }
}

/// Collects parsed outputs into a map, or returns the first error.
pub fn collect_outputs<E>(parsed: Vec<ParsedOutput<E>>) -> (res: Result<OutputMap, E>)
    ensures
        outputs_collected(parsed@, res),
{
    let mut map = OutputMap::new();
    let ghost all = parsed@;
    assert(parsed_texts(all.take(0)) =~= Seq::empty());
    for output in it: parsed
        invariant
            it.seq() == all,
            map@ == map_of(parsed_texts(all.take(it.index() as int))),
            forall|j: int| 0 <= j < it.index() ==> (#[trigger] all[j]) is Ok,
    {
        let ghost i = it.index() as int;
        assert(output == all[i]);
        match output {
            Err(e) => {
                return Err(e);
            },
            Ok((name, path)) => {
                proof {
                    let texts = parsed_texts(all.take(i + 1));
                    assert(texts.drop_last() =~= parsed_texts(all.take(i)));
                    assert(texts.last() == (name@, path@));
                }
                map = map.insert(name, path);
            },
        }
    }
    assert(all.take(all.len() as int) =~= all);
    Ok(map)
}

/// Parses the rows that have a path, one by one, and collects them; the first
/// error ends it.
pub fn read_outputs<E, N, P>(rows: Vec<OutputRow>, parse_name: N, parse_path: P) -> (res: Result<
    OutputMap,
    E,
>) where N: Fn(String) -> Result<String, E>, P: Fn(String) -> Result<String, E>
    requires
        forall|text: String| #[trigger] parse_name.requires((text,)),
        forall|text: String| #[trigger] parse_path.requires((text,)),
    ensures
        exists|parsed: Seq<ParsedOutput<E>>| #[trigger]
            rows_parsed(parse_name, parse_path, rows@.filter(has_path()), parsed)
                && outputs_collected(parsed, res),
{
    let mut parsed: Vec<ParsedOutput<E>> = Vec::new();
    let ghost all = rows@;
    let ghost wanted = all.filter(has_path());
    proof {
        reveal(Seq::filter);
        assert(all.take(0).filter(has_path()) =~= Seq::empty());
    }
    for row in it: rows
        invariant
            it.seq() == all,
            wanted == all.filter(has_path()),
            forall|text: String| #[trigger] parse_name.requires((text,)),
            forall|text: String| #[trigger] parse_path.requires((text,)),
            parsed@.len() == all.take(it.index() as int).filter(has_path()).len(),
            forall|i: int|
                0 <= i < parsed@.len() ==> row_parsed(
                    parse_name,
                    parse_path,
                    all.take(it.index() as int).filter(has_path())[i],
                    #[trigger] parsed@[i],
                ),
            forall|i: int| 0 <= i < parsed@.len() ==> (#[trigger] parsed@[i]) is Ok,
    {
        let ghost i = it.index() as int;
        proof {
            reveal(Seq::filter);
            assert(row == all[i]);
            assert(all.take(i + 1).drop_last() =~= all.take(i));
            assert(all.take(i + 1).last() == row);
        }
        let ghost seen = all.take(i + 1).filter(has_path());
        if let Some(path) = row.path {
            let output: ParsedOutput<E> = match parse_name(row.name) {
                Err(e) => Err(e),
                Ok(name) => match parse_path(path) {
                    Err(e) => Err(e),
                    Ok(path) => Ok((name, path)),
                },
            };
            assert(row_parsed(parse_name, parse_path, row, output));
            let failed = output.is_err();
            parsed.push(output);
            if failed {
                proof {
                    lemma_filter_prefix(all, i + 1, has_path());
                    assert(seen.last() == row);
                    assert forall|k: int| 0 <= k < parsed@.len() implies row_parsed(
                        parse_name,
                        parse_path,
                        wanted[k],
                        #[trigger] parsed@[k],
                    ) by {
                        assert(wanted[k] == seen[k]);
                    }
                    assert(rows_parsed(parse_name, parse_path, wanted, parsed@));
                }
                return collect_outputs(parsed);
            }
        }
    }
    assert(all.take(all.len() as int) =~= all);
    assert(rows_parsed(parse_name, parse_path, wanted, parsed@));
    collect_outputs(parsed)
}

proof fn lemma_filter_prefix(rows: Seq<OutputRow>, n: int, keep: spec_fn(OutputRow) -> bool)
    requires
        0 <= n <= rows.len(),
    ensures
        rows.take(n).filter(keep).len() <= rows.filter(keep).len(),
        rows.take(n).filter(keep) == rows.filter(keep).take(
            rows.take(n).filter(keep).len() as int,
        ),
    decreases rows.len(),
{
    reveal(Seq::filter);
    if n < rows.len() {
        lemma_filter_prefix(rows.drop_last(), n, keep);
        assert(rows.drop_last().take(n) =~= rows.take(n));
        let front = rows.drop_last().filter(keep);
        let k = rows.take(n).filter(keep).len() as int;
        assert(front.push(rows.last()).take(k) =~= front.take(k));
    } else {
        assert(rows.take(n) =~= rows);
        assert(rows.filter(keep).take(rows.filter(keep).len() as int) =~= rows.filter(keep));
    }
}

// --- what is read back -----------------------------------------------------

/// A map without entries has no path for any name.
pub proof fn law_new_map_is_empty(map: &OutputMap, name: &str, got: Option<&String>)
    requires
        call_ensures(OutputMap::new, (), *map),
        call_ensures(OutputMap::get, (map, name), got),
    ensures
        got is None,
{
}

/// A name has the path that was set for it last, and setting the path of one
/// name leaves those of all others alone.
pub proof fn law_last_path_set_is_read_back(
    before: &OutputMap,
    set: String,
    path: String,
    after: &OutputMap,
    name: &str,
    got_before: Option<&String>,
    got_after: Option<&String>,
)
    requires
        call_ensures(OutputMap::insert, (*before, set, path), *after),
        call_ensures(OutputMap::get, (before, name), got_before),
        call_ensures(OutputMap::get, (after, name), got_after),
    ensures
        name@ == set@ ==> (got_after matches Some(got) && got@ == path@),
        name@ != set@ ==> match got_before {
            Some(was) => got_after matches Some(got) && got@ == was@,
            None => got_after is None,
        },
{
}

/// The entries of a map are its names, each once and in the order of texts,
/// with the path that a look at the name finds.
pub proof fn law_entries_are_what_get_finds(
    map: &OutputMap,
    entries: &Vec<(String, String)>,
    name: &str,
    got: Option<&String>,
)
    requires
        call_ensures(OutputMap::entries, (map,), entries),
        call_ensures(OutputMap::get, (map, name), got),
    ensures
        forall|i: int, j: int|
            0 <= i < j < entries@.len() ==> lexicographically_before(
                (#[trigger] entries@[i]).0@,
                (#[trigger] entries@[j]).0@,
            ),
        forall|i: int|
            0 <= i < entries@.len() && (#[trigger] entries@[i]).0@ == name@ ==> (got matches Some(
                path,
            ) && path@ == entries@[i].1@),
        got is Some ==> exists|i: int|
            0 <= i < entries@.len() && (#[trigger] entries@[i]).0@ == name@,
{
    let texts = entry_texts(entries@);
    lemma_ascending_distinct(texts);
    lemma_map_of_keys(texts, name@);
    assert forall|i: int, j: int| 0 <= i < j < entries@.len() implies lexicographically_before(
        (#[trigger] entries@[i]).0@,
        (#[trigger] entries@[j]).0@,
    ) by {
        assert(text_less(texts[i].0, texts[j].0));
        law_text_less_is_lexicographic(texts[i].0, texts[j].0);
    }
    assert forall|i: int| 0 <= i < entries@.len() && (#[trigger] entries@[i]).0@
        == name@ implies (got matches Some(path) && path@ == entries@[i].1@) by {
        assert(texts[i].0 == name@);
        lemma_map_of_distinct(texts, i);
    }
    if got is Some {
        let i = choose|i: int| 0 <= i < texts.len() && #[trigger] texts[i].0 == name@;
        assert(entries@[i].0@ == name@);
    }
}

/// The first error among what was parsed is what collecting it returns.
pub proof fn law_first_error_is_returned<E>(
    parsed: Vec<ParsedOutput<E>>,
    i: int,
    res: Result<OutputMap, E>,
)
    requires
        0 <= i < parsed@.len(),
        parsed@[i] is Err,
        forall|j: int| 0 <= j < i ==> (#[trigger] parsed@[j]) is Ok,
        call_ensures(collect_outputs::<E>, (parsed,), res),
    ensures
        res matches Err(e) && parsed@[i] == Err::<(String, String), E>(e),
{
    lemma_first_error(parsed@, i, res);
}

proof fn lemma_first_error<E>(parsed: Seq<ParsedOutput<E>>, i: int, res: Result<OutputMap, E>)
    requires
        0 <= i < parsed.len(),
        parsed[i] is Err,
        forall|j: int| 0 <= j < i ==> (#[trigger] parsed[j]) is Ok,
        outputs_collected(parsed, res),
    ensures
        res matches Err(e) && parsed[i] == Err::<(String, String), E>(e),
{
    match res {
        Ok(_) => {
            assert(parsed[i] is Ok);
        },
        Err(e) => {
            let k = choose|k: int|
                0 <= k < parsed.len() && #[trigger] parsed[k] == Err::<(String, String), E>(e)
                    && forall|j: int| 0 <= j < k ==> (#[trigger] parsed[j]) is Ok;
            if k < i {
                assert(parsed[k] is Ok);
            } else if i < k {
                assert(parsed[i] is Ok);
            }
        },
    }
}

/// Where nothing failed, every output that was parsed is in the map, under the
/// path that came last for its name, and nothing else is.
pub proof fn law_parsed_outputs_are_collected<E>(
    parsed: Vec<ParsedOutput<E>>,
    res: Result<OutputMap, E>,
    map: &OutputMap,
    name: &str,
    got: Option<&String>,
)
    requires
        forall|i: int| 0 <= i < parsed@.len() ==> (#[trigger] parsed@[i]) is Ok,
        call_ensures(collect_outputs::<E>, (parsed,), res),
        res matches Ok(collected) ==> *map == collected,
        call_ensures(OutputMap::get, (map, name), got),
    ensures
        res is Ok,
        got is Some ==> exists|i: int|
            0 <= i < parsed@.len() && (#[trigger] parsed@[i])->Ok_0.0@ == name@,
        forall|i: int|
            0 <= i < parsed@.len() && (#[trigger] parsed@[i])->Ok_0.0@ == name@ && (forall|j: int|
                i < j < parsed@.len() ==> (#[trigger] parsed@[j])->Ok_0.0@ != name@) ==> (
            got matches Some(path) && path@ == parsed@[i]->Ok_0.1@),
{
    let texts = parsed_texts(parsed@);
    lemma_map_of_keys(texts, name@);
    if got is Some {
        let i = choose|i: int| 0 <= i < texts.len() && #[trigger] texts[i].0 == name@;
        assert(parsed@[i]->Ok_0.0@ == name@);
    }
    assert forall|i: int|
        0 <= i < parsed@.len() && (#[trigger] parsed@[i])->Ok_0.0@ == name@ && (forall|j: int|
            i < j < parsed@.len() ==> (#[trigger] parsed@[j])->Ok_0.0@ != name@) implies (
    got matches Some(path) && path@ == parsed@[i]->Ok_0.1@) by {
        assert forall|j: int| i < j < texts.len() implies (#[trigger] texts[j]).0 != texts[i].0 by {
            assert(parsed@[j]->Ok_0.0@ != name@);
        }
        law_map_of_last_pair_counts(texts, i);
    }
}

/// The error that a row meets with, if it meets with one: a row without a path
/// is not looked at, and an error of the name comes before one of the path.
pub open spec fn row_error<E>(
    row: OutputRow,
    name_of: spec_fn(String) -> Result<String, E>,
    path_of: spec_fn(String) -> Result<String, E>,
) -> Option<E> {
    if row.path is None {
        None
    } else if name_of(row.name) is Err {
        Some(name_of(row.name)->Err_0)
    } else if path_of(row.path->0) is Err {
        Some(path_of(row.path->0)->Err_0)
    } else {
        None
    }
}

/// Whether the row is one with a path, and of the output `name`.
pub open spec fn row_names<E>(
    row: OutputRow,
    name_of: spec_fn(String) -> Result<String, E>,
    name: Seq<char>,
) -> bool {
    row.path is Some && name_of(row.name)->Ok_0@ == name
}

/// Whether `parse` computes `function`.
pub open spec fn parses_as<E, F>(
    parse: F,
    function: spec_fn(String) -> Result<String, E>,
) -> bool where F: Fn(String) -> Result<String, E> {
    forall|text: String, res: Result<String, E>| #[trigger]
        parse.ensures((text,), res) ==> res == function(text)
}

proof fn lemma_row_parsed<E, N, P>(
    parse_name: N,
    parse_path: P,
    name_of: spec_fn(String) -> Result<String, E>,
    path_of: spec_fn(String) -> Result<String, E>,
    row: OutputRow,
    parsed: ParsedOutput<E>,
) where N: Fn(String) -> Result<String, E>, P: Fn(String) -> Result<String, E>
    requires
        parses_as(parse_name, name_of),
        parses_as(parse_path, path_of),
        row.path is Some,
        row_parsed(parse_name, parse_path, row, parsed),
    ensures
        match row_error(row, name_of, path_of) {
            Some(e) => parsed == Err::<(String, String), E>(e),
            None => parsed == Ok::<(String, String), E>(
                (name_of(row.name)->Ok_0, path_of(row.path->0)->Ok_0),
            ),
        },
{
}

/// The row that is kept at `a` is one of the rows, and one to keep.
proof fn lemma_kept_row(rows: Seq<OutputRow>, keep: spec_fn(OutputRow) -> bool, a: int) -> (j: int)
    requires
        0 <= a < rows.filter(keep).len(),
    ensures
        0 <= j < rows.len(),
        rows[j] == rows.filter(keep)[a],
        keep(rows[j]),
    decreases rows.len(),
{
    reveal(Seq::filter);
    let front = rows.drop_last();
    if a < front.filter(keep).len() {
        lemma_kept_row(front, keep, a)
    } else {
        rows.len() - 1
    }
}

/// Where the row at `i` stands among the rows that are kept: those before it
/// come from rows before it, those behind it from rows behind it.
proof fn lemma_place_in_filter(rows: Seq<OutputRow>, i: int, keep: spec_fn(OutputRow) -> bool) -> (k:
    int)
    requires
        0 <= i < rows.len(),
        keep(rows[i]),
    ensures
        0 <= k < rows.filter(keep).len(),
        rows.filter(keep)[k] == rows[i],
        forall|a: int|
            0 <= a < k ==> exists|j: int|
                0 <= j < i && #[trigger] rows[j] == #[trigger] rows.filter(keep)[a],
        forall|a: int|
            k < a < rows.filter(keep).len() ==> exists|j: int|
                i < j < rows.len() && #[trigger] rows[j] == #[trigger] rows.filter(keep)[a],
{
    reveal(Seq::filter);
    let front = rows.take(i);
    let upto = rows.take(i + 1);
    let back = rows.skip(i + 1);
    assert(upto.drop_last() =~= front);
    assert(upto.last() == rows[i]);
    assert(upto + back =~= rows);
    Seq::filter_distributes_over_add(upto, back, keep);
    let wanted = rows.filter(keep);
    let k = front.filter(keep).len() as int;
    assert(upto.filter(keep) == front.filter(keep).push(rows[i]));
    assert forall|a: int| 0 <= a < k implies exists|j: int|
        0 <= j < i && #[trigger] rows[j] == #[trigger] wanted[a] by {
        assert(wanted[a] == front.filter(keep)[a]);
        let j = lemma_kept_row(front, keep, a);
        assert(rows[j] == wanted[a]);
    }
    assert forall|a: int| k < a < wanted.len() implies exists|j: int|
        i < j < rows.len() && #[trigger] rows[j] == #[trigger] wanted[a] by {
        let b = a - k - 1;
        assert(wanted[a] == back.filter(keep)[b]);
        let j = lemma_kept_row(back, keep, b);
        assert(rows[i + 1 + j] == wanted[a]);
    }
    k
}

/// What becomes of rows of which the one at `i` is the first to fail.
pub(crate) proof fn lemma_first_failing_row<E, N, P>(
    parse_name: N,
    parse_path: P,
    name_of: spec_fn(String) -> Result<String, E>,
    path_of: spec_fn(String) -> Result<String, E>,
    rows: Seq<OutputRow>,
    i: int,
    parsed: Seq<ParsedOutput<E>>,
    res: Result<OutputMap, E>,
) where N: Fn(String) -> Result<String, E>, P: Fn(String) -> Result<String, E>
    requires
        parses_as(parse_name, name_of),
        parses_as(parse_path, path_of),
        rows_parsed(parse_name, parse_path, rows.filter(has_path()), parsed),
        outputs_collected(parsed, res),
        0 <= i < rows.len(),
        row_error(rows[i], name_of, path_of) is Some,
        forall|j: int| 0 <= j < i ==> row_error(#[trigger] rows[j], name_of, path_of) is None,
    ensures
        res == Err::<OutputMap, E>(row_error(rows[i], name_of, path_of)->0),
{
    let wanted = rows.filter(has_path());
    let k = lemma_place_in_filter(rows, i, has_path());
    assert forall|a: int| 0 <= a < k && a < parsed.len() implies (#[trigger] parsed[a]) is Ok by {
        let j = choose|j: int| 0 <= j < i && #[trigger] rows[j] == #[trigger] wanted[a];
        lemma_kept_row(rows, has_path(), a);
        lemma_row_parsed(parse_name, parse_path, name_of, path_of, wanted[a], parsed[a]);
    }
    if parsed.len() <= k {
        assert(parsed[parsed.len() - 1] is Ok);
    }
    lemma_row_parsed(parse_name, parse_path, name_of, path_of, wanted[k], parsed[k]);
    lemma_first_error(parsed, k, res);
}

/// What becomes of rows of which none fails.
pub(crate) proof fn lemma_no_failing_row<E, N, P>(
    parse_name: N,
    parse_path: P,
    name_of: spec_fn(String) -> Result<String, E>,
    path_of: spec_fn(String) -> Result<String, E>,
    rows: Seq<OutputRow>,
    parsed: Seq<ParsedOutput<E>>,
    res: Result<OutputMap, E>,
) where N: Fn(String) -> Result<String, E>, P: Fn(String) -> Result<String, E>
    requires
        parses_as(parse_name, name_of),
        parses_as(parse_path, path_of),
        rows_parsed(parse_name, parse_path, rows.filter(has_path()), parsed),
        outputs_collected(parsed, res),
        forall|j: int|
            0 <= j < rows.len() ==> row_error(#[trigger] rows[j], name_of, path_of) is None,
    ensures
        res is Ok,
        parsed.len() == rows.filter(has_path()).len(),
        forall|a: int|
            0 <= a < parsed.len() ==> #[trigger] parsed[a] == Ok::<(String, String), E>(
                (
                    name_of(rows.filter(has_path())[a].name)->Ok_0,
                    path_of(rows.filter(has_path())[a].path->0)->Ok_0,
                ),
            ),
{
    let wanted = rows.filter(has_path());
    assert forall|a: int| 0 <= a < parsed.len() implies #[trigger] parsed[a] == Ok::<
        (String, String),
        E,
    >((name_of(wanted[a].name)->Ok_0, path_of(wanted[a].path->0)->Ok_0)) by {
        let j = lemma_kept_row(rows, has_path(), a);
        assert(row_error(rows[j], name_of, path_of) is None);
        lemma_row_parsed(parse_name, parse_path, name_of, path_of, wanted[a], parsed[a]);
    }
    if parsed.len() > 0 {
        assert(parsed[parsed.len() - 1] is Ok);
    }
}

/// What a map that was collected from rows of which none fails has for a name.
pub(crate) proof fn lemma_outputs_of_rows<E, N, P>(
    parse_name: N,
    parse_path: P,
    name_of: spec_fn(String) -> Result<String, E>,
    path_of: spec_fn(String) -> Result<String, E>,
    rows: Seq<OutputRow>,
    parsed: Seq<ParsedOutput<E>>,
    map: OutputMap,
    name: Seq<char>,
) where N: Fn(String) -> Result<String, E>, P: Fn(String) -> Result<String, E>
    requires
        parses_as(parse_name, name_of),
        parses_as(parse_path, path_of),
        rows_parsed(parse_name, parse_path, rows.filter(has_path()), parsed),
        outputs_collected(parsed, Ok::<OutputMap, E>(map)),
        forall|j: int|
            0 <= j < rows.len() ==> row_error(#[trigger] rows[j], name_of, path_of) is None,
    ensures
        map@.contains_key(name) ==> exists|i: int|
            0 <= i < rows.len() && row_names(#[trigger] rows[i], name_of, name),
        forall|i: int|
            #![trigger rows[i]]
            0 <= i < rows.len() && row_names(rows[i], name_of, name) && (forall|j: int|
                i < j < rows.len() ==> !row_names(#[trigger] rows[j], name_of, name)) ==> (
            map@.contains_key(name) && map@[name] == path_of(rows[i].path->0)->Ok_0@),
{
    let wanted = rows.filter(has_path());
    let ok = Ok::<OutputMap, E>(map);
    lemma_no_failing_row(parse_name, parse_path, name_of, path_of, rows, parsed, ok);
    let texts = parsed_texts(parsed);
    lemma_map_of_keys(texts, name);
    assert forall|a: int| 0 <= a < texts.len() implies #[trigger] texts[a] == (
        name_of(wanted[a].name)->Ok_0@,
        path_of(wanted[a].path->0)->Ok_0@,
    ) by {
        assert(parsed[a] is Ok);
    }
    if map@.contains_key(name) {
        let a = choose|a: int| 0 <= a < texts.len() && #[trigger] texts[a].0 == name;
        let i = lemma_kept_row(rows, has_path(), a);
        assert(row_names(rows[i], name_of, name));
    }
    assert forall|i: int|
        #![trigger rows[i]]
        0 <= i < rows.len() && row_names(rows[i], name_of, name) && (forall|j: int|
            i < j < rows.len() ==> !row_names(#[trigger] rows[j], name_of, name)) implies (
    map@.contains_key(name) && map@[name] == path_of(rows[i].path->0)->Ok_0@) by {
        let k = lemma_place_in_filter(rows, i, has_path());
        assert forall|a: int| k < a < texts.len() implies (#[trigger] texts[a]).0 != texts[k].0 by {
            let j = choose|j: int|
                i < j < rows.len() && #[trigger] rows[j] == #[trigger] wanted[a];
            lemma_kept_row(rows, has_path(), a);
            assert(!row_names(rows[j], name_of, name));
        }
        law_map_of_last_pair_counts(texts, k);
    }
}

/// The error of the first row that fails is what reading the outputs returns;
/// a row without a path never fails.
pub proof fn law_first_failing_row_is_returned<E, N, P>(
    rows: Vec<OutputRow>,
    parse_name: N,
    parse_path: P,
    name_of: spec_fn(String) -> Result<String, E>,
    path_of: spec_fn(String) -> Result<String, E>,
    i: int,
    res: Result<OutputMap, E>,
) where N: Fn(String) -> Result<String, E>, P: Fn(String) -> Result<String, E>
    requires
        parses_as(parse_name, name_of),
        parses_as(parse_path, path_of),
        call_ensures(read_outputs::<E, N, P>, (rows, parse_name, parse_path), res),
        0 <= i < rows@.len(),
        row_error(rows@[i], name_of, path_of) is Some,
        forall|j: int| 0 <= j < i ==> row_error(#[trigger] rows@[j], name_of, path_of) is None,
    ensures
        res == Err::<OutputMap, E>(row_error(rows@[i], name_of, path_of)->0),
{
    let parsed = choose|parsed: Seq<ParsedOutput<E>>| #[trigger]
        rows_parsed(parse_name, parse_path, rows@.filter(has_path()), parsed) && outputs_collected(
            parsed,
            res,
        );
    lemma_first_failing_row(parse_name, parse_path, name_of, path_of, rows@, i, parsed, res);
}

/// Where no row fails, the outputs are read: each name of a row with a path has
/// the path of the last such row, and no other name has one.
pub proof fn law_outputs_are_read<E, N, P>(
    rows: Vec<OutputRow>,
    parse_name: N,
    parse_path: P,
    name_of: spec_fn(String) -> Result<String, E>,
    path_of: spec_fn(String) -> Result<String, E>,
    res: Result<OutputMap, E>,
    map: &OutputMap,
    name: &str,
    got: Option<&String>,
) where N: Fn(String) -> Result<String, E>, P: Fn(String) -> Result<String, E>
    requires
        parses_as(parse_name, name_of),
        parses_as(parse_path, path_of),
        call_ensures(read_outputs::<E, N, P>, (rows, parse_name, parse_path), res),
        forall|j: int|
            0 <= j < rows@.len() ==> row_error(#[trigger] rows@[j], name_of, path_of) is None,
        res matches Ok(read) ==> *map == read,
        call_ensures(OutputMap::get, (map, name), got),
    ensures
        res is Ok,
        got is Some ==> exists|i: int|
            0 <= i < rows@.len() && row_names(#[trigger] rows@[i], name_of, name@),
        forall|i: int|
            #![trigger rows@[i]]
            0 <= i < rows@.len() && row_names(rows@[i], name_of, name@) && (forall|j: int|
                i < j < rows@.len() ==> !row_names(#[trigger] rows@[j], name_of, name@)) ==> (
            got matches Some(path) && path@ == path_of(rows@[i].path->0)->Ok_0@),
{
    let parsed = choose|parsed: Seq<ParsedOutput<E>>| #[trigger]
        rows_parsed(parse_name, parse_path, rows@.filter(has_path()), parsed) && outputs_collected(
            parsed,
            res,
        );
    lemma_no_failing_row(parse_name, parse_path, name_of, path_of, rows@, parsed, res);
    lemma_outputs_of_rows(
        parse_name,
        parse_path,
        name_of,
        path_of,
        rows@,
        parsed,
        *map,
        name@,
    );
}

} // verus!
