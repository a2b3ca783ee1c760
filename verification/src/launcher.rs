//! The app launcher: which apps a query shows.

use vstd::prelude::*;

use crate::text::chars::{contains_str, lowercase, occurs, to_lowercase, views};

verus! {

/// How many results the launcher shows.
pub const RESULTS: usize = 8;

/// An app of the start menu.
#[derive(Debug, Clone, PartialEq)]
pub struct AppEntry {
    pub icon: String,
    pub name: String,
    pub command: String,
}

/// The app matches the query: the query is empty, or occurs in its name or its
/// command.
pub open spec fn matches_query(query: Seq<char>, name: Seq<char>, command: Seq<char>) -> bool {
    query.len() == 0 || occurs(name, query) || occurs(command, query)
}

/// The indices of the apps that match, the first ones.
pub open spec fn results(
    query: Seq<char>,
    names: Seq<Seq<char>>,
    commands: Seq<Seq<char>>,
    n: int,
) -> Seq<int>
    decreases n,
{
    if n <= 0 {
        seq![]
    } else {
        let rest = results(query, names, commands, n - 1);
        if rest.len() < RESULTS && matches_query(query, names[n - 1], commands[n - 1]) {
            rest.push(n - 1)
        } else {
            rest
        }
    }
}

/// The indices as whole numbers.
pub open spec fn indices(v: Seq<usize>) -> Seq<int> {
    Seq::new(v.len(), |i: int| v[i] as int)
}

/// The apps whose name or command, as given, holds the query, the first ones.
pub fn filter_apps(query: &str, names: &Vec<String>, commands: &Vec<String>) -> (r: Vec<usize>)
    requires
        names.len() == commands.len(),
    ensures
        indices(r@) == results(query@, views(names@), views(commands@), names.len() as int),
        r.len() <= RESULTS,
{
    let ghost (ns, cs) = (views(names@), views(commands@));
    let mut out: Vec<usize> = Vec::new();
    assert(indices(out@) =~= results(query@, ns, cs, 0));
    for i in 0..names.len()
        invariant
            names.len() == commands.len(),
            ns == views(names@),
            cs == views(commands@),
            out.len() <= RESULTS,
            indices(out@) == results(query@, ns, cs, i as int),
    {
        let ghost before = indices(out@);
        proof {
            assert(ns[i as int] == names@[i as int]@ && cs[i as int] == commands@[i as int]@);
            assert(before.len() == out@.len());
        }
        if out.len() < RESULTS {
            let found = query.is_empty() || contains_str(names[i].as_str(), query) || contains_str(
                commands[i].as_str(),
                query,
            );
            if found {
                out.push(i);
                assert(indices(out@) =~= before.push(i as int));
            }
        }
    }
    out
}

/// The names of apps in lower case.
pub open spec fn low_names(apps: Seq<AppEntry>) -> Seq<Seq<char>> {
    Seq::new(apps.len(), |i: int| lowercase(apps[i].name@))
}

/// The commands of apps in lower case.
pub open spec fn low_commands(apps: Seq<AppEntry>) -> Seq<Seq<char>> {
    Seq::new(apps.len(), |i: int| lowercase(apps[i].command@))
}

/// The apps that the launcher shows for a query, whatever the case.
pub fn launcher_query(apps: &Vec<AppEntry>, query: &str) -> (r: Vec<usize>)
    ensures
        indices(r@) == results(
            lowercase(query@),
            low_names(apps@),
            low_commands(apps@),
            apps.len() as int,
        ),
        r.len() <= RESULTS,
{
    let mut names: Vec<String> = Vec::new();
    let mut commands: Vec<String> = Vec::new();
    for i in 0..apps.len()
        invariant
            views(names@) =~= low_names(apps@).take(i as int),
            views(commands@) =~= low_commands(apps@).take(i as int),
    {
        let ghost (ns, cs) = (views(names@), views(commands@));
        let name = to_lowercase(apps[i].name.as_str());
        let command = to_lowercase(apps[i].command.as_str());
        names.push(name);
        commands.push(command);
        proof {
            assert(views(names@) =~= ns.push(name@));
            assert(views(commands@) =~= cs.push(command@));
            assert(low_names(apps@).take(i + 1) =~= low_names(apps@).take(i as int).push(
                low_names(apps@)[i as int],
            ));
            assert(low_commands(apps@).take(i + 1) =~= low_commands(apps@).take(i as int).push(
                low_commands(apps@)[i as int],
            ));
        }
    }
    assert(views(names@) =~= low_names(apps@));
    assert(views(commands@) =~= low_commands(apps@));
    assert(views(names@).len() == names@.len());
    assert(views(commands@).len() == commands@.len());
    filter_apps(to_lowercase(query).as_str(), &names, &commands)
}

/// An empty query shows the first apps.
pub proof fn law_empty_query_shows_the_first_apps(
    names: Seq<Seq<char>>,
    commands: Seq<Seq<char>>,
    n: int,
)
    requires
        0 <= n,
    ensures
        results(seq![], names, commands, n) == Seq::new(
            (if n < RESULTS {
                n
            } else {
                RESULTS as int
            }) as nat,
            |i: int| i,
        ),
    decreases n,
{
    if n > 0 {
        law_empty_query_shows_the_first_apps(names, commands, n - 1);
    }
    assert(results(seq![], names, commands, n) =~= Seq::new(
        (if n < RESULTS {
            n
        } else {
            RESULTS as int
        }) as nat,
        |i: int| i,
    ));
}

/// The query is empty or occurs in the name or the command of an app.
pub open spec fn found_in(
    query: Seq<char>,
    names: Seq<Seq<char>>,
    commands: Seq<Seq<char>>,
    i: int,
) -> bool {
    query.len() == 0 || occurs(names[i], query) || occurs(commands[i], query)
}

/// A query shows the first eight apps that match it, in their order. An app matches
/// if the query is empty or occurs in its name or its command.
pub proof fn law_the_first_matches_are_shown(
    query: Seq<char>,
    names: Seq<Seq<char>>,
    commands: Seq<Seq<char>>,
    n: int,
)
    requires
        0 <= n <= names.len(),
        n <= commands.len(),
    ensures
        ({
            let r = results(query, names, commands, n);
            &&& r.len() <= 8
            &&& forall|a: int, b: int| 0 <= a < b < r.len() ==> r[a] < r[b]
            &&& forall|k: int|
                0 <= k < r.len() ==> 0 <= #[trigger] r[k] < n && (query.len() == 0 || occurs(
                    names[r[k]],
                    query,
                ) || occurs(commands[r[k]], query))
            &&& forall|i: int|
                0 <= i < n && found_in(query, names, commands, i) ==> #[trigger] r.contains(i) || (
                r.len() == 8 && r[7] < i)
        }),
    decreases n,
{
    if n > 0 {
        law_the_first_matches_are_shown(query, names, commands, n - 1);
        let before = results(query, names, commands, n - 1);
        let r = results(query, names, commands, n);
        let found = matches_query(query, names[n - 1], commands[n - 1]);
        assert(r == if before.len() < 8 && found {
            before.push(n - 1)
        } else {
            before
        });
        assert forall|k: int| 0 <= k < r.len() implies 0 <= #[trigger] r[k] < n && (query.len() == 0
            || occurs(names[r[k]], query) || occurs(commands[r[k]], query)) by {
            if k < before.len() {
                assert(r[k] == before[k]);
            }
        }
        assert forall|a: int, b: int| 0 <= a < b < r.len() implies r[a] < r[b] by {
            assert(r[a] == before[a]);
            if b < before.len() {
                assert(r[b] == before[b]);
            }
        }
        assert forall|i: int| 0 <= i < n && found_in(query, names, commands, i) implies
            #[trigger] r.contains(i) || (r.len() == 8 && r[7] < i) by {
            if i < n - 1 {
                if before.contains(i) {
                    let k = choose|k: int| 0 <= k < before.len() && before[k] == i;
                    assert(r[k] == i);
                } else {
                    assert(before.len() == 8 && before[7] < i);
                }
            } else if before.len() < 8 {
                assert(found);
                assert(r[before.len() as int] == i);
            } else {
                assert(r == before);
                assert(before[7] < n - 1);
            }
        }
    }
}

} // verus!
