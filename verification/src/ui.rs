use vstd::prelude::*;
use vstd::string::*;

use crate::config::{connection_views, Connection, ConnectionView};
use crate::text::{
    ascii_fold, contains_seq, decimal, decimal_string, eq_ignore_ascii_case, is_ascii_text, join,
    join_strings, lemma_eq_ignore_ascii_case_transitive, lemma_fold_of_case_variants,
    lemma_trimmed_ascii, lemma_trimmed_idempotent, lemma_trimmed_keeps_case_variants, lowercase,
    lowercase_of, str_contains, str_eq_ignore_ascii_case, trim_str, trimmed,
};

verus! {

/// How a connection is shown: `[id] name (host)`, or `name (host)` without an id.
pub open spec fn label_spec(c: ConnectionView) -> Seq<char> {
    match c.id {
        Some(id) => "["@ + id + "] "@ + c.name + " ("@ + c.host + ")"@,
        None => c.name + " ("@ + c.host + ")"@,
    }
}

/// The connection's name, or its id, equals `q` ignoring ASCII case.
pub open spec fn exact_match(c: ConnectionView, q: Seq<char>) -> bool {
    eq_ignore_ascii_case(c.name, q) || (c.id is Some && eq_ignore_ascii_case(c.id->0, q))
}

/// The id (where there is one), name and host of a connection, each lower-cased.
pub struct LoweredFields {
    pub id: Option<String>,
    pub name: String,
    pub host: String,
}

/// Lower-cased fields as plain text.
pub struct LoweredView {
    pub id: Option<Seq<char>>,
    pub name: Seq<char>,
    pub host: Seq<char>,
}

impl View for LoweredFields {
    type V = LoweredView;

    open spec fn view(&self) -> LoweredView {
        LoweredView { id: self.id.deep_view(), name: self.name@, host: self.host@ }
    }
}

/// The fields of `c` that lookup by fragment reads, lower-cased.
pub open spec fn lowered_fields(c: ConnectionView) -> LoweredView {
    LoweredView {
        id: match c.id {
            Some(id) => Some(lowercase(id)),
            None => None,
        },
        name: lowercase(c.name),
        host: lowercase(c.host),
    }
}

/// The lower-cased fields of each connection.
pub open spec fn lowered_all(cs: Seq<ConnectionView>) -> Seq<LoweredView> {
    Seq::new(cs.len(), |i: int| lowered_fields(cs[i]))
}

/// The (lower-cased) id, name or host contains `fragment`.
pub open spec fn fragment_match_lowered(l: LoweredView, fragment: Seq<char>) -> bool {
    ||| (l.id is Some && contains_seq(l.id->0, fragment))
    ||| contains_seq(l.name, fragment)
    ||| contains_seq(l.host, fragment)
}

/// The lower-cased id, name or host of the connection contains `fragment`.
pub open spec fn fragment_match(c: ConnectionView, fragment: Seq<char>) -> bool {
    fragment_match_lowered(lowered_fields(c), fragment)
}

/// The position of the first of the first `n` connections that matches `q`
/// exactly, if any.
pub open spec fn first_exact(cs: Seq<ConnectionView>, q: Seq<char>, n: int) -> Option<int>
    decreases n,
{
    if n <= 0 {
        None
    } else {
        match first_exact(cs, q, n - 1) {
            Some(i) => Some(i),
            None => if exact_match(cs[n - 1], q) {
                Some(n - 1)
            } else {
                None
            },
        }
    }
}

/// The positions, in increasing order, among the first `n` lower-cased field
/// sets, of those that match `fragment`.
pub open spec fn fragment_matches(lfs: Seq<LoweredView>, fragment: Seq<char>, n: int) -> Seq<int>
    decreases n,
{
    if n <= 0 {
        Seq::empty()
    } else if fragment_match_lowered(lfs[n - 1], fragment) {
        fragment_matches(lfs, fragment, n - 1).push(n - 1)
    } else {
        fragment_matches(lfs, fragment, n - 1)
    }
}

/// What looking up the trimmed query `q` among `cs` gives, where `lfs` holds the
/// lower-cased fields of each connection and `ql` the lower-cased query: the
/// position of the connection, or the error message.
pub open spec fn find_in(
    cs: Seq<ConnectionView>,
    lfs: Seq<LoweredView>,
    q: Seq<char>,
    ql: Seq<char>,
) -> Result<int, Seq<char>> {
    if q.len() == 0 {
        Err("connection query cannot be empty"@)
    } else if first_exact(cs, q, cs.len() as int) is Some {
        Ok(first_exact(cs, q, cs.len() as int)->0)
    } else {
        let ms = fragment_matches(lfs, ql, cs.len() as int);
        if ms.len() == 1 {
            Ok(ms[0])
        } else if ms.len() == 0 {
            Err("no connection matching '"@ + q + "'"@)
        } else {
            Err(
                "ambiguous connection '"@ + q + "'. Matches: "@ + join(
                    ms.map_values(|i: int| label_spec(cs[i])),
                    ", "@,
                ) + ". Use a more specific name."@,
            )
        }
    }
}

/// What looking up `query` among `cs` gives: the position of the connection, or
/// the error message.
pub open spec fn find_spec(cs: Seq<ConnectionView>, query: Seq<char>) -> Result<int, Seq<char>> {
    find_in(cs, lowered_all(cs), trimmed(query), lowercase(trimmed(query)))
}

/// The same lookup with the query folded to lower case letter by letter over
/// ASCII, which is what lower-casing does to ASCII text.
pub open spec fn find_spec_ascii(cs: Seq<ConnectionView>, query: Seq<char>) -> Result<
    int,
    Seq<char>,
> {
    find_in(cs, lowered_all(cs), trimmed(query), ascii_fold(trimmed(query)))
}

/// The label under which a connection is listed and offered for selection.
pub fn render_connection_label(connection: &Connection) -> (r: String)
    ensures
        r@ == label_spec(connection@),
{
    let mut r = match &connection.id {
        Some(id) => {
            let mut r = String::from_str("[");
            r.append(id.as_str());
            r.append("] ");
            r.append(connection.name.as_str());
            r
        },
        None => connection.name.clone(),
    };
    r.append(" (");
    r.append(connection.host.as_str());
    r.append(")");
    r
}

/// Whether the connection has an id equal to `query` ignoring ASCII case.
pub fn has_matching_id(connection: &Connection, query: &str) -> (r: bool)
    ensures
        r == (connection@.id is Some && eq_ignore_ascii_case(connection@.id->0, query@)),
{
    match &connection.id {
        Some(id) => str_eq_ignore_ascii_case(id.as_str(), query),
        None => false,
    }
}

fn quoted(before: &str, value: &str, after: &str) -> (r: String)
    ensures
        r@ == before@ + value@ + after@,
{
    let mut r = String::from_str(before);
    r.append(value);
    r.append(after);
    r
}

/// Looks up the trimmed query `query` among `connections`, given the lower-cased
/// query and the lower-cased fields of each connection: the first connection
/// whose name or id equals `query` ignoring ASCII case; otherwise the only one
/// whose lower-cased id, name or host contains `query_lower`. Fails on an empty
/// query, on no match, and on several fragment matches (listing them).
pub fn find_lowered(
    query: &str,
    query_lower: &str,
    connections: &[Connection],
    lowered: &[LoweredFields],
) -> (r: Result<usize, String>)
    requires
        lowered@.len() == connections@.len(),
    ensures
        match find_in(
            connection_views(connections@),
            lowered@.map_values(|l: LoweredFields| l@),
            query@,
            query_lower@,
        ) {
            Ok(i) => r matches Ok(j) && j as int == i && i < connections@.len(),
            Err(msg) => r matches Err(m) && m@ == msg,
        },
{
    let ghost cs = connection_views(connections@);
    let ghost lfs = lowered@.map_values(|l: LoweredFields| l@);
    let q = query;
    proof {
        lemma_first_exact_is_first(cs, q@, cs.len() as int);
        lemma_fragment_matches_members(lfs, query_lower@, cs.len() as int);
    }
    if q.is_empty() {
        return Err(String::from_str("connection query cannot be empty"));
    }
    let n = connections.len();
    let mut i: usize = 0;
    while i < n
        invariant
            cs == connection_views(connections@),
            n == connections@.len(),
            i <= n,
            first_exact(cs, q@, i as int) is None,
            q@.len() > 0,
            q@ == query@,
            lfs == lowered@.map_values(|l: LoweredFields| l@),
        decreases n - i,
    {
        let c = &connections[i];
        assert(cs[i as int] == c@);
        if str_eq_ignore_ascii_case(c.name.as_str(), q) || has_matching_id(c, q) {
            proof {
                assert(exact_match(cs[i as int], q@));
                lemma_first_exact_persists(cs, q@, i as int, n as int);
            }
            return Ok(i);
        }
        i = i + 1;
    }
    let mut matches: Vec<usize> = Vec::new();
    let mut i: usize = 0;
    while i < n
        invariant
            cs == connection_views(connections@),
            lfs == lowered@.map_values(|l: LoweredFields| l@),
            lowered@.len() == n,
            n == connections@.len(),
            i <= n,
            matches@.len() == fragment_matches(lfs, query_lower@, i as int).len(),
            forall|k: int|
                0 <= k < matches@.len() ==> #[trigger] matches@[k] as int == fragment_matches(
                    lfs,
                    query_lower@,
                    i as int,
                )[k],
            forall|k: int| 0 <= k < matches@.len() ==> #[trigger] matches@[k] < i,
        decreases n - i,
    {
        let l = &lowered[i];
        assert(lfs[i as int] == l@);
        let id_match = match &l.id {
            Some(id) => str_contains(id.as_str(), query_lower),
            None => false,
        };
        let name_match = str_contains(l.name.as_str(), query_lower);
        let host_match = str_contains(l.host.as_str(), query_lower);
        if id_match || name_match || host_match {
            matches.push(i);
        }
        i = i + 1;
    }
    let ghost ms = fragment_matches(lfs, query_lower@, n as int);
    if matches.len() == 1 {
        return Ok(matches[0]);
    }
    if matches.len() == 0 {
        return Err(quoted("no connection matching '", q, "'"));
    }
    let mut labels: Vec<String> = Vec::new();
    let mut k: usize = 0;
    while k < matches.len()
        invariant
            cs == connection_views(connections@),
            n == connections@.len(),
            ms == fragment_matches(lfs, query_lower@, n as int),
            matches@.len() == ms.len(),
            forall|j: int| 0 <= j < matches@.len() ==> #[trigger] matches@[j] as int == ms[j],
            forall|j: int| 0 <= j < matches@.len() ==> #[trigger] matches@[j] < n,
            k <= matches.len(),
            labels.deep_view() == ms.take(k as int).map_values(|x: int| label_spec(cs[x])),
        decreases matches.len() - k,
    {
        let idx = matches[k];
        assert(cs[idx as int] == connections@[idx as int]@);
        let label = render_connection_label(&connections[idx]);
        let ghost before = labels.deep_view();
        let ghost lv = label@;
        labels.push(label);
        assert(labels.deep_view() =~= before.push(lv));
        assert(ms.take(k + 1) =~= ms.take(k as int).push(ms[k as int]));
        assert(ms.take(k + 1).map_values(|x: int| label_spec(cs[x])) =~= ms.take(
            k as int,
        ).map_values(|x: int| label_spec(cs[x])).push(label_spec(cs[ms[k as int]])));
        k = k + 1;
    }
    assert(ms.take(matches.len() as int) =~= ms);
    let names = join_strings(&labels, ", ");
    assert(labels@.map_values(|p: String| p@) =~= labels.deep_view());
    let mut msg = String::from_str("ambiguous connection '");
    msg.append(q);
    msg.append("'. Matches: ");
    msg.append(names.as_str());
    msg.append(". Use a more specific name.");
    Err(msg)
}

fn lower_optional(s: &Option<String>) -> (r: Option<String>)
    ensures
        r.deep_view() == match s.deep_view() {
            Some(t) => Some(lowercase(t)),
            None => None,
        },
{
    match s {
        Some(t) => Some(lowercase_of(t.as_str())),
        None => None,
    }
}

/// Finds the connection that `query` names: after trimming, the first whose name
/// or id equals it ignoring ASCII case; otherwise the only one whose lower-cased
/// id, name or host contains the lower-cased query. Fails on an empty query, on
/// no match, and on several fragment matches (listing them).
pub fn find_connection(query: &str, connections: &[Connection]) -> (r: Result<usize, String>)
    ensures
        match find_spec(connection_views(connections@), query@) {
            Ok(i) => r matches Ok(j) && j as int == i && i < connections@.len(),
            Err(msg) => r matches Err(m) && m@ == msg,
        },
        is_ascii_text(query@) ==> match find_spec_ascii(connection_views(connections@), query@) {
            Ok(i) => r matches Ok(j) && j as int == i,
            Err(msg) => r matches Err(m) && m@ == msg,
        },
{
    let ghost cs = connection_views(connections@);
    let q = trim_str(query);
    let query_lower = lowercase_of(q);
    proof {
        if is_ascii_text(query@) {
            lemma_trimmed_ascii(query@);
        }
    }
    let mut lowered: Vec<LoweredFields> = Vec::new();
    let mut i: usize = 0;
    while i < connections.len()
        invariant
            cs == connection_views(connections@),
            i <= connections.len(),
            lowered@.len() == i,
            forall|k: int| 0 <= k < i ==> (#[trigger] lowered@[k])@ == lowered_fields(cs[k]),
        decreases connections.len() - i,
    {
        let c = &connections[i];
        assert(cs[i as int] == c@);
        let l = LoweredFields {
            id: lower_optional(&c.id),
            name: lowercase_of(c.name.as_str()),
            host: lowercase_of(c.host.as_str()),
        };
        lowered.push(l);
        i = i + 1;
    }
    assert(lowered@.map_values(|l: LoweredFields| l@) =~= lowered_all(cs));
    find_lowered(q, query_lower.as_str(), connections, lowered.as_slice())
}

proof fn lemma_first_exact_persists(cs: Seq<ConnectionView>, q: Seq<char>, i: int, n: int)
    requires
        0 <= i < n,
        first_exact(cs, q, i) is None,
        exact_match(cs[i], q),
    ensures
        first_exact(cs, q, n) == Some(i),
    decreases n - i,
{
    if n > i + 1 {
        lemma_first_exact_persists(cs, q, i, n - 1);
    }
}

/// The line that lists connection `c` at position `k` (counting from one).
pub open spec fn list_line(k: int, c: ConnectionView) -> Seq<char> {
    "  "@ + decimal((k + 1) as nat) + ". "@ + label_spec(c)
}

/// The lines under the heading of the connection list, one per connection, in
/// order: `  <number>. <label>`.
pub fn connection_list_lines(connections: &[Connection]) -> (r: Vec<String>)
    ensures
        r.deep_view() == Seq::new(
            connections@.len(),
            |k: int| list_line(k, connections@[k]@),
        ),
{
    let mut lines: Vec<String> = Vec::new();
    let mut k: usize = 0;
    while k < connections.len()
        invariant
            k <= connections.len(),
            lines.deep_view() == Seq::new(k as nat, |j: int| list_line(j, connections@[j]@)),
        decreases connections.len() - k,
    {
        let mut line = String::from_str("  ");
        let number = decimal_string((k + 1) as u64);
        line.append(number.as_str());
        line.append(". ");
        let label = render_connection_label(&connections[k]);
        line.append(label.as_str());
        let ghost before = lines.deep_view();
        let ghost lv = line@;
        lines.push(line);
        assert(lines.deep_view() =~= before.push(lv));
        assert(Seq::new((k + 1) as nat, |j: int| list_line(j, connections@[j]@)) =~= Seq::new(
            k as nat,
            |j: int| list_line(j, connections@[j]@),
        ).push(list_line(k as int, connections@[k as int]@)));
        k = k + 1;
    }
    lines
}

proof fn lemma_first_exact_is_first(cs: Seq<ConnectionView>, q: Seq<char>, n: int)
    ensures
        first_exact(cs, q, n) matches Some(i) ==> 0 <= i < n && exact_match(cs[i], q) && forall|
            j: int,
        | 0 <= j < i ==> !exact_match(#[trigger] cs[j], q),
        first_exact(cs, q, n) is None ==> forall|j: int|
            0 <= j < n ==> !exact_match(#[trigger] cs[j], q),
    decreases n,
{
    if n > 0 {
        lemma_first_exact_is_first(cs, q, n - 1);
    }
}

proof fn lemma_fragment_matches_members(cs: Seq<LoweredView>, f: Seq<char>, n: int)
    requires
        0 <= n,
    ensures
        forall|k: int|
            0 <= k < fragment_matches(cs, f, n).len() ==> 0 <= #[trigger] fragment_matches(
                cs,
                f,
                n,
            )[k] < n && fragment_match_lowered(cs[fragment_matches(cs, f, n)[k]], f),
        forall|k1: int, k2: int|
            0 <= k1 < k2 < fragment_matches(cs, f, n).len() ==> #[trigger] fragment_matches(
                cs,
                f,
                n,
            )[k1] < #[trigger] fragment_matches(cs, f, n)[k2],
        forall|j: int|
            0 <= j < n && fragment_match_lowered(#[trigger] cs[j], f) ==> fragment_matches(
                cs,
                f,
                n,
            ).contains(j),
    decreases n,
{
    if n > 0 {
        lemma_fragment_matches_members(cs, f, n - 1);
        let prev = fragment_matches(cs, f, n - 1);
        if fragment_match_lowered(cs[n - 1], f) {
            let cur = prev.push(n - 1);
            assert forall|j: int| 0 <= j < n && fragment_match_lowered(#[trigger] cs[j], f) implies cur.contains(j) by {
                if j < n - 1 {
                    let k = choose|k: int| 0 <= k < prev.len() && prev[k] == j;
                    assert(cur[k] == j);
                } else {
                    assert(cur[prev.len() as int] == j);
                }
            }
        }
    }
}

/// A successful lookup names one of the connections. If that connection's name
/// or id equals the trimmed query ignoring ASCII case, no earlier connection's
/// does; otherwise no connection's name or id equals the query, and the
/// connection is the only one whose lower-cased id, name or host contains the
/// lower-cased query.
pub proof fn lemma_found_connection_matches(cs: Seq<ConnectionView>, query: Seq<char>)
    ensures
        find_spec(cs, query) matches Ok(i) ==> {
            let q = trimmed(query);
            &&& 0 <= i < cs.len()
            &&& q.len() > 0
            &&& if exact_match(cs[i], q) {
                forall|j: int| 0 <= j < i ==> !exact_match(#[trigger] cs[j], q)
            } else {
                &&& forall|j: int| 0 <= j < cs.len() ==> !exact_match(#[trigger] cs[j], q)
                &&& fragment_match(cs[i], lowercase(q))
                &&& forall|j: int|
                    0 <= j < cs.len() && j != i ==> !fragment_match(#[trigger] cs[j], lowercase(q))
            }
        },
{
    let q = trimmed(query);
    let n = cs.len() as int;
    lemma_first_exact_is_first(cs, q, n);
    let lfs = lowered_all(cs);
    lemma_fragment_matches_members(lfs, lowercase(q), n);
    if q.len() > 0 && first_exact(cs, q, n) is None {
        let ms = fragment_matches(lfs, lowercase(q), n);
        if ms.len() == 1 {
            assert(lfs[ms[0]] == lowered_fields(cs[ms[0]]));
            assert forall|j: int|
                0 <= j < cs.len() && j != ms[0] implies !fragment_match(#[trigger] cs[j], lowercase(q)) by {
                assert(lfs[j] == lowered_fields(cs[j]));
                if fragment_match(cs[j], lowercase(q)) {
                    assert(ms.contains(j));
                }
            }
        }
    }
}

/// When no connection's name or id equals the trimmed query ignoring ASCII case,
/// and two connections have a lower-cased id, name or host that contains the
/// lower-cased trimmed query, the lookup fails, saying the query is ambiguous.
pub proof fn lemma_ambiguous_query_fails(cs: Seq<ConnectionView>, query: Seq<char>, a: int, b: int)
    requires
        0 <= a < b < cs.len(),
        trimmed(query).len() > 0,
        forall|j: int|
            0 <= j < cs.len() ==> !eq_ignore_ascii_case((#[trigger] cs[j]).name, trimmed(query))
                && !(cs[j].id is Some && eq_ignore_ascii_case(cs[j].id->0, trimmed(query))),
        (cs[a].id is Some && contains_seq(lowercase(cs[a].id->0), lowercase(trimmed(query))))
            || contains_seq(lowercase(cs[a].name), lowercase(trimmed(query))) || contains_seq(
            lowercase(cs[a].host),
            lowercase(trimmed(query)),
        ),
        (cs[b].id is Some && contains_seq(lowercase(cs[b].id->0), lowercase(trimmed(query))))
            || contains_seq(lowercase(cs[b].name), lowercase(trimmed(query))) || contains_seq(
            lowercase(cs[b].host),
            lowercase(trimmed(query)),
        ),
    ensures
        find_spec(cs, query) matches Err(m) && m.len() >= ("ambiguous connection '"@ + trimmed(
            query,
        ) + "'. Matches: "@).len() && m.subrange(
            0,
            ("ambiguous connection '"@ + trimmed(query) + "'. Matches: "@).len() as int,
        ) == "ambiguous connection '"@ + trimmed(query) + "'. Matches: "@,
{
    let q = trimmed(query);
    let n = cs.len() as int;
    lemma_first_exact_is_first(cs, q, n);
    if first_exact(cs, q, n) is Some {
        let k = first_exact(cs, q, n)->0;
        assert(exact_match(cs[k], q));
        assert(!eq_ignore_ascii_case(cs[k].name, q));
    }
    let lfs = lowered_all(cs);
    lemma_fragment_matches_members(lfs, lowercase(q), n);
    let ms = fragment_matches(lfs, lowercase(q), n);
    assert(lfs[a] == lowered_fields(cs[a]) && lfs[b] == lowered_fields(cs[b]));
    assert(ms.contains(a));
    assert(ms.contains(b));
    if ms.len() == 1 {
        let ka = choose|k: int| 0 <= k < ms.len() && ms[k] == a;
        let kb = choose|k: int| 0 <= k < ms.len() && ms[k] == b;
    }
    let pre = "ambiguous connection '"@ + q + "'. Matches: "@;
    let m = pre + join(ms.map_values(|i: int| label_spec(cs[i])), ", "@)
        + ". Use a more specific name."@;
    assert(find_spec(cs, query) == Err::<int, Seq<char>>(m));
    assert(m.subrange(0, pre.len() as int) =~= pre);
}

/// An empty or blank query is refused.
pub proof fn lemma_blank_query_fails(cs: Seq<ConnectionView>, query: Seq<char>)
    requires
        trimmed(query).len() == 0,
    ensures
        find_spec(cs, query) == Err::<int, Seq<char>>("connection query cannot be empty"@),
{
}

/// When no connection's name or id equals the trimmed query ignoring ASCII case,
/// and no connection's lower-cased id, name or host contains the lower-cased
/// trimmed query, the lookup fails, quoting the trimmed query.
pub proof fn lemma_unmatched_query_fails(cs: Seq<ConnectionView>, query: Seq<char>)
    requires
        trimmed(query).len() > 0,
        forall|j: int|
            0 <= j < cs.len() ==> !eq_ignore_ascii_case((#[trigger] cs[j]).name, trimmed(query))
                && !(cs[j].id is Some && eq_ignore_ascii_case(cs[j].id->0, trimmed(query)))
                && !(cs[j].id is Some && contains_seq(
                lowercase(cs[j].id->0),
                lowercase(trimmed(query)),
            )) && !contains_seq(lowercase(cs[j].name), lowercase(trimmed(query)))
                && !contains_seq(lowercase(cs[j].host), lowercase(trimmed(query))),
    ensures
        find_spec(cs, query) == Err::<int, Seq<char>>(
            "no connection matching '"@ + trimmed(query) + "'"@,
        ),
{
    let q = trimmed(query);
    let n = cs.len() as int;
    lemma_first_exact_is_first(cs, q, n);
    if first_exact(cs, q, n) is Some {
        let k = first_exact(cs, q, n)->0;
        assert(exact_match(cs[k], q));
        assert(!eq_ignore_ascii_case(cs[k].name, q));
    }
    let lfs = lowered_all(cs);
    lemma_fragment_matches_members(lfs, lowercase(q), n);
    let ms = fragment_matches(lfs, lowercase(q), n);
    if ms.len() > 0 {
        let j = ms[0];
        assert(fragment_match_lowered(lfs[j], lowercase(q)));
        assert(lfs[j] == lowered_fields(cs[j]));
        assert(!contains_seq(lowercase(cs[j].name), lowercase(q)));
    }
}

/// A connection whose name or id equals the trimmed, non-empty query ignoring
/// ASCII case is found, provided no earlier connection's name or id does; matches
/// by fragment are then not considered.
pub proof fn lemma_exact_match_wins(cs: Seq<ConnectionView>, query: Seq<char>, i: int)
    requires
        0 <= i < cs.len(),
        trimmed(query).len() > 0,
        eq_ignore_ascii_case(cs[i].name, trimmed(query)) || (cs[i].id is Some
            && eq_ignore_ascii_case(cs[i].id->0, trimmed(query))),
        forall|j: int|
            0 <= j < i ==> !eq_ignore_ascii_case((#[trigger] cs[j]).name, trimmed(query)) && !(
            cs[j].id is Some && eq_ignore_ascii_case(cs[j].id->0, trimmed(query))),
    ensures
        find_spec(cs, query) == Ok::<int, Seq<char>>(i),
{
    lemma_first_exact_is_first(cs, trimmed(query), cs.len() as int);
    assert(exact_match(cs[i], trimmed(query)));
    if first_exact(cs, trimmed(query), cs.len() as int) is Some {
        let k = first_exact(cs, trimmed(query), cs.len() as int)->0;
        if k < i {
            assert(exact_match(cs[k], trimmed(query)));
            assert(!eq_ignore_ascii_case(cs[k].name, trimmed(query)));
        }
    }
}

/// Surrounding white space never changes a lookup: looking up the trimmed query
/// gives what looking up the query gives.
pub proof fn lemma_lookup_ignores_surrounding_space(cs: Seq<ConnectionView>, query: Seq<char>)
    ensures
        find_spec(cs, trimmed(query)) == find_spec(cs, query),
{
    lemma_trimmed_idempotent(query);
}

proof fn lemma_exact_match_case(c: ConnectionView, a: Seq<char>, b: Seq<char>)
    requires
        eq_ignore_ascii_case(a, b),
    ensures
        exact_match(c, a) == exact_match(c, b),
{
    assert(eq_ignore_ascii_case(b, a));
    if eq_ignore_ascii_case(c.name, a) {
        lemma_eq_ignore_ascii_case_transitive(c.name, a, b);
    }
    if eq_ignore_ascii_case(c.name, b) {
        lemma_eq_ignore_ascii_case_transitive(c.name, b, a);
    }
    if c.id is Some {
        if eq_ignore_ascii_case(c.id->0, a) {
            lemma_eq_ignore_ascii_case_transitive(c.id->0, a, b);
        }
        if eq_ignore_ascii_case(c.id->0, b) {
            lemma_eq_ignore_ascii_case_transitive(c.id->0, b, a);
        }
    }
}

proof fn lemma_first_exact_case(cs: Seq<ConnectionView>, a: Seq<char>, b: Seq<char>, n: int)
    requires
        eq_ignore_ascii_case(a, b),
    ensures
        first_exact(cs, a, n) == first_exact(cs, b, n),
    decreases n,
{
    if n > 0 {
        lemma_first_exact_case(cs, a, b, n - 1);
        lemma_exact_match_case(cs[n - 1], a, b);
    }
}

/// ASCII case never changes the choice: for two queries that differ only in the
/// case of ASCII letters, the lookup (with the query folded over ASCII, which is
/// what `find_connection` does for an ASCII query) succeeds for both or for
/// neither, and then picks the same connection.
pub proof fn lemma_ascii_case_keeps_choice(cs: Seq<ConnectionView>, query: Seq<char>, other: Seq<char>)
    requires
        eq_ignore_ascii_case(other, query),
    ensures
        find_spec_ascii(cs, query) is Ok <==> find_spec_ascii(cs, other) is Ok,
        find_spec_ascii(cs, query) is Ok ==> find_spec_ascii(cs, query) == find_spec_ascii(cs, other),
{
    let tq = trimmed(query);
    let to = trimmed(other);
    lemma_trimmed_keeps_case_variants(other, query);
    lemma_fold_of_case_variants(to, tq);
    lemma_first_exact_case(cs, to, tq, cs.len() as int);
}

/// When no connection's name or id equals the trimmed query `q` ignoring ASCII
/// case, and exactly one entry of `lfs` (the lower-cased id, name and host of each
/// connection) has an id, name or host that contains `ql`, the lookup gives that
/// entry's position.
pub proof fn lemma_unique_lowered_fragment_found(
    cs: Seq<ConnectionView>,
    lfs: Seq<LoweredView>,
    q: Seq<char>,
    ql: Seq<char>,
    i: int,
)
    requires
        lfs.len() == cs.len(),
        0 <= i < cs.len(),
        q.len() > 0,
        forall|j: int|
            0 <= j < cs.len() ==> !eq_ignore_ascii_case((#[trigger] cs[j]).name, q) && !(
            cs[j].id is Some && eq_ignore_ascii_case(cs[j].id->0, q)),
        (lfs[i].id is Some && contains_seq(lfs[i].id->0, ql)) || contains_seq(lfs[i].name, ql)
            || contains_seq(lfs[i].host, ql),
        forall|j: int|
            0 <= j < lfs.len() && j != i ==> !((#[trigger] lfs[j]).id is Some && contains_seq(
                lfs[j].id->0,
                ql,
            )) && !contains_seq(lfs[j].name, ql) && !contains_seq(lfs[j].host, ql),
    ensures
        find_in(cs, lfs, q, ql) == Ok::<int, Seq<char>>(i),
{
    let n = cs.len() as int;
    lemma_first_exact_is_first(cs, q, n);
    if first_exact(cs, q, n) is Some {
        let k = first_exact(cs, q, n)->0;
        assert(exact_match(cs[k], q));
        assert(!eq_ignore_ascii_case(cs[k].name, q));
    }
    lemma_fragment_matches_members(lfs, ql, n);
    let ms = fragment_matches(lfs, ql, n);
    assert(fragment_match_lowered(lfs[i], ql));
    assert(ms.contains(i));
    assert forall|k: int| 0 <= k < ms.len() implies #[trigger] ms[k] == i by {
        let j = ms[k];
        assert(fragment_match_lowered(lfs[j], ql));
        if j != i {
            assert(!fragment_match_lowered(lfs[j], ql));
        }
    }
    if ms.len() >= 2 {
        assert(ms[0] < ms[1]);
    }
}

/// When no connection's name or id equals the trimmed query ignoring ASCII case,
/// and exactly one connection has a lower-cased id, name or host that contains
/// the lower-cased trimmed query, the lookup gives that connection's position.
pub proof fn lemma_unique_fragment_found(cs: Seq<ConnectionView>, query: Seq<char>, i: int)
    requires
        0 <= i < cs.len(),
        trimmed(query).len() > 0,
        forall|j: int|
            0 <= j < cs.len() ==> !eq_ignore_ascii_case((#[trigger] cs[j]).name, trimmed(query))
                && !(cs[j].id is Some && eq_ignore_ascii_case(cs[j].id->0, trimmed(query))),
        (cs[i].id is Some && contains_seq(lowercase(cs[i].id->0), lowercase(trimmed(query))))
            || contains_seq(lowercase(cs[i].name), lowercase(trimmed(query))) || contains_seq(
            lowercase(cs[i].host),
            lowercase(trimmed(query)),
        ),
        forall|j: int|
            0 <= j < cs.len() && j != i ==> !((#[trigger] cs[j]).id is Some && contains_seq(
                lowercase(cs[j].id->0),
                lowercase(trimmed(query)),
            )) && !contains_seq(lowercase(cs[j].name), lowercase(trimmed(query)))
                && !contains_seq(lowercase(cs[j].host), lowercase(trimmed(query))),
    ensures
        find_spec(cs, query) == Ok::<int, Seq<char>>(i),
{
    let lfs = lowered_all(cs);
    assert forall|j: int| 0 <= j < lfs.len() && j != i implies !((#[trigger] lfs[j]).id is Some
        && contains_seq(lfs[j].id->0, lowercase(trimmed(query)))) && !contains_seq(
        lfs[j].name,
        lowercase(trimmed(query)),
    ) && !contains_seq(lfs[j].host, lowercase(trimmed(query))) by {
        assert(lfs[j] == lowered_fields(cs[j]));
        assert(cs[j] == cs[j]);
    }
    assert(lfs[i] == lowered_fields(cs[i]));
    lemma_unique_lowered_fragment_found(
        cs,
        lfs,
        trimmed(query),
        lowercase(trimmed(query)),
        i,
    );
}

/// A label shows the id (in brackets, when there is one), the name and the host
/// in parentheses, and nothing else.
pub proof fn lemma_label_shows_id_name_host(c: ConnectionView)
    ensures
        c.id is Some ==> label_spec(c) == "["@ + c.id->0 + "] "@ + c.name + " ("@ + c.host + ")"@,
        c.id is None ==> label_spec(c) == c.name + " ("@ + c.host + ")"@,
{
}

/// A label depends only on the id, name and host: user, port, identity file and
/// options never change it.
pub proof fn lemma_label_depends_only_on_id_name_host(c1: ConnectionView, c2: ConnectionView)
    requires
        c1.id == c2.id,
        c1.name == c2.name,
        c1.host == c2.host,
    ensures
        label_spec(c1) == label_spec(c2),
{
}

/// The line at position `k` (from zero) of the list is two spaces, the number
/// `k + 1` in decimal, a period and a space, then the connection's label; the
/// number depends on the position alone.
pub proof fn lemma_list_line_layout(k: int, c: ConnectionView)
    requires
        0 <= k,
    ensures
        list_line(k, c) == "  "@ + decimal((k + 1) as nat) + ". "@ + label_spec(c),
        list_line(k, c).subrange(0, (2 + decimal((k + 1) as nat).len() + 2) as int) == "  "@ + decimal(
            (k + 1) as nat,
        ) + ". "@,
{
    reveal_strlit("  ");
    reveal_strlit(". ");
    let pre = "  "@ + decimal((k + 1) as nat) + ". "@;
    assert(list_line(k, c) == pre + label_spec(c));
    assert((pre + label_spec(c)).subrange(0, pre.len() as int) =~= pre);
}

} // verus!
