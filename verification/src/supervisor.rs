//! Decisions of the Supervisor Agent: the Agent Registry, which agent owns
//! a path, what install and removal do, and the replies they give.
use vstd::prelude::*;
use crate::history::{is_line, lemma_lines_of_text, text_of_lines};
use crate::paths::{
    component_count, components, components_exec, join, join_exec, path_eq, path_eq_exec,
    path_starts_with, path_starts_with_exec, relative, relative_path,
};
use crate::text::{
    chars_eq, chars_eq_str, chars_of, decimal, extend_chars, extend_str, find_from, lemma_find_from_bounds,
    lemma_split_cons, lines, lines_exec, parse_u64, parse_u64_exec, push_decimal, split,
    split_exec, split_from, string_of, trim, trim_exec, views,
};

verus! {

/// The Supervisor Socket inside the Supervisor Home.
pub open spec fn socket_path_of(home: Seq<char>) -> Seq<char> {
    join(home, "supervisor.sock"@)
}

/// The Supervisor Socket inside the Supervisor Home `home`.
pub fn socket_path(home: &str) -> (out: String)
    ensures
        out@ == socket_path_of(home@),
{
    join_exec(home, "supervisor.sock")
}

/// The history repository inside an Agent Home.
pub fn history_repo_dir(agent_home: &str) -> (out: String)
    ensures
        out@ == join(join(agent_home@, "history"@), "repo"@),
{
    let h = join_exec(agent_home, "history");
    join_exec(h.as_str(), "repo")
}

/// Where top-level Agent Homes are archived inside the Supervisor Home.
pub fn supervisor_archive_root(supervisor_home: &str) -> (out: String)
    ensures
        out@ == join(supervisor_home@, "archives"@),
{
    join_exec(supervisor_home, "archives")
}

/// The Supervisor Home: `$AFS_HOME` when set, otherwise `$HOME/.afs`;
/// `None` when neither is set.
pub fn home(afs_home: Option<&str>, user_home: Option<&str>) -> (out: Option<String>)
    ensures
        out matches Some(h) ==> (match afs_home {
            Some(a) => h@ == a@,
            None => user_home is Some && h@ == join(user_home.unwrap()@, ".afs"@),
        }),
        out is None <==> (afs_home is None && user_home is None),
{
    match afs_home {
        Some(a) => Some(a.to_string()),
        None => match user_home {
            Some(h) => Some(join_exec(h, ".afs")),
            None => None,
        },
    }
}

// ---------------------------------------------------------------------------
// The Agent Registry.
// ---------------------------------------------------------------------------

/// One Registered Agent: its Agent Identity, Managed Directory and Agent Home.
pub struct AgentRecord {
    pub identity: String,
    pub managed_dir: String,
    pub agent_home: String,
}

/// The plain contents of an [`AgentRecord`].
pub struct AgentRecordView {
    pub identity: Seq<char>,
    pub managed_dir: Seq<char>,
    pub agent_home: Seq<char>,
}

impl View for AgentRecord {
    type V = AgentRecordView;

    open spec fn view(&self) -> AgentRecordView {
        AgentRecordView {
            identity: self.identity@,
            managed_dir: self.managed_dir@,
            agent_home: self.agent_home@,
        }
    }
}

/// The views of a sequence of agent records.
pub open spec fn agent_views(v: Seq<AgentRecord>) -> Seq<AgentRecordView> {
    Seq::new(v.len(), |i: int| v[i]@)
}

/// `dir` holds `p`: `p` is `dir` or below it.
pub open spec fn holds(dir: Seq<char>, p: Seq<char>) -> bool {
    path_eq(p, dir) || path_starts_with(p, dir)
}

/// `dir` holds `p` strictly: `p` is below `dir` and not `dir` itself.
pub open spec fn holds_strictly(dir: Seq<char>, p: Seq<char>) -> bool {
    !path_eq(p, dir) && path_starts_with(p, dir)
}

/// Depth of a managed directory: its number of path components.
pub open spec fn depth(a: AgentRecordView) -> nat {
    components(a.managed_dir).len()
}

/// Among the first `n` agents, the deepest whose directory holds `p`
/// (strictly when `strict`), the later one on a tie (`Iterator::max_by_key`).
pub open spec fn deepest_below(agents: Seq<AgentRecordView>, p: Seq<char>, strict: bool, n: int) -> Option<
    int,
>
    decreases n,
{
    if n <= 0 {
        None
    } else {
        let prev = deepest_below(agents, p, strict, n - 1);
        let a = agents[n - 1];
        let cand = if strict {
            holds_strictly(a.managed_dir, p)
        } else {
            holds(a.managed_dir, p)
        };
        if cand {
            match prev {
                None => Some(n - 1),
                Some(i) => if depth(a) >= depth(agents[i]) {
                    Some(n - 1)
                } else {
                    Some(i)
                },
            }
        } else {
            prev
        }
    }
}

/// The agent that owns `p`: the deepest registered Managed Directory that
/// holds it.
pub open spec fn owning_index(agents: Seq<AgentRecordView>, p: Seq<char>) -> Option<int> {
    deepest_below(agents, p, false, agents.len() as int)
}

/// The parent of the Managed Directory `dir`: the deepest other registered
/// Managed Directory that holds it.
pub open spec fn parent_index(agents: Seq<AgentRecordView>, dir: Seq<char>) -> Option<int> {
    deepest_below(agents, dir, true, agents.len() as int)
}

fn deepest_exec(agents: &Vec<AgentRecord>, p: &str, strict: bool) -> (r: Option<usize>)
    ensures
        r matches Some(i) ==> deepest_below(agent_views(agents@), p@, strict, agents.len() as int)
            == Some(i as int),
        r is None ==> deepest_below(agent_views(agents@), p@, strict, agents.len() as int) is None,
{
    let ghost av = agent_views(agents@);
    let mut best: Option<usize> = None;
    let mut best_depth: usize = 0;
    let mut n: usize = 0;
    while n < agents.len()
        invariant
            n <= agents.len(),
            av == agent_views(agents@),
            best matches Some(i) ==> deepest_below(av, p@, strict, n as int) == Some(i as int) && i
                < n && best_depth == depth(av[i as int]),
            best is None ==> deepest_below(av, p@, strict, n as int) is None,
        decreases agents.len() - n,
    {
        let a = &agents[n];
        assert(av[n as int] == a@);
        let same = path_eq_exec(p, a.managed_dir.as_str());
        let below = path_starts_with_exec(p, a.managed_dir.as_str());
        let cand = if strict {
            !same && below
        } else {
            same || below
        };
        if cand {
            let d = component_count(a.managed_dir.as_str());
            match best {
                None => {
                    best = Some(n);
                    best_depth = d;
                },
                Some(i) => {
                    if d >= best_depth {
                        best = Some(n);
                        best_depth = d;
                    }
                },
            }
        }
        n += 1;
    }
    best
}

/// The index of the agent that owns `requested_path`: the deepest
/// registered Managed Directory that holds it (later on a tie).
pub fn owning_agent_index(agents: &Vec<AgentRecord>, requested_path: &str) -> (r: Option<usize>)
    ensures
        r matches Some(i) ==> owning_index(agent_views(agents@), requested_path@) == Some(i as int),
        r is None ==> owning_index(agent_views(agents@), requested_path@) is None,
{
    deepest_exec(agents, requested_path, false)
}

/// The index of the parent agent of the Managed Directory `managed_dir`:
/// the deepest other registered Managed Directory that holds it.
pub fn parent_agent_index(agents: &Vec<AgentRecord>, managed_dir: &str) -> (r: Option<usize>)
    ensures
        r matches Some(i) ==> parent_index(agent_views(agents@), managed_dir@) == Some(i as int),
        r is None ==> parent_index(agent_views(agents@), managed_dir@) is None,
{
    deepest_exec(agents, managed_dir, true)
}

/// The owner of a path holds it, and no registered directory that holds
/// it is deeper: a path is managed by exactly the deepest agent above it,
/// and by none when no registered directory holds it.
pub proof fn law_owner_is_deepest(agents: Seq<AgentRecordView>, p: Seq<char>)
    ensures
        owning_index(agents, p) matches Some(i) ==> 0 <= i < agents.len() && holds(
            agents[i].managed_dir,
            p,
        ) && forall|k: int|
            0 <= k < agents.len() && holds(#[trigger] agents[k].managed_dir, p) ==> depth(agents[k])
                <= depth(agents[i]),
        owning_index(agents, p) is None ==> forall|k: int|
            0 <= k < agents.len() ==> !holds(#[trigger] agents[k].managed_dir, p),
{
    lemma_deepest(agents, p, false, agents.len() as int);
}

/// The parent of a Managed Directory holds it strictly, and no other
/// registered directory that holds it strictly is deeper.
pub proof fn law_parent_is_deepest(agents: Seq<AgentRecordView>, dir: Seq<char>)
    ensures
        parent_index(agents, dir) matches Some(i) ==> 0 <= i < agents.len() && holds_strictly(
            agents[i].managed_dir,
            dir,
        ) && forall|k: int|
            0 <= k < agents.len() && holds_strictly(#[trigger] agents[k].managed_dir, dir) ==> depth(
                agents[k],
            ) <= depth(agents[i]),
        parent_index(agents, dir) is None ==> forall|k: int|
            0 <= k < agents.len() ==> !holds_strictly(#[trigger] agents[k].managed_dir, dir),
{
    lemma_deepest(agents, dir, true, agents.len() as int);
}

proof fn lemma_deepest(agents: Seq<AgentRecordView>, p: Seq<char>, strict: bool, n: int)
    requires
        0 <= n <= agents.len(),
    ensures
        deepest_below(agents, p, strict, n) matches Some(i) ==> 0 <= i < n && (if strict {
            holds_strictly(agents[i].managed_dir, p)
        } else {
            holds(agents[i].managed_dir, p)
        }) && forall|k: int|
            0 <= k < n && (if strict {
                holds_strictly(#[trigger] agents[k].managed_dir, p)
            } else {
                holds(agents[k].managed_dir, p)
            }) ==> depth(agents[k]) <= depth(agents[i]),
        deepest_below(agents, p, strict, n) is None ==> forall|k: int|
            0 <= k < n ==> !(if strict {
                holds_strictly(#[trigger] agents[k].managed_dir, p)
            } else {
                holds(agents[k].managed_dir, p)
            }),
    decreases n,
{
    if n > 0 {
        lemma_deepest(agents, p, strict, n - 1);
    }
}

/// The first agent whose Managed Directory is `dir` (`Iterator::position`).
pub open spec fn position_below(agents: Seq<AgentRecordView>, dir: Seq<char>, n: int) -> Option<int>
    decreases n,
{
    if n <= 0 {
        None
    } else {
        match position_below(agents, dir, n - 1) {
            Some(i) => Some(i),
            None => if path_eq(agents[n - 1].managed_dir, dir) {
                Some(n - 1)
            } else {
                None
            },
        }
    }
}

/// A directory some agent is registered for has a registered position.
proof fn lemma_position_found(agents: Seq<AgentRecordView>, dir: Seq<char>, n: int, k: int)
    requires
        0 <= k < n <= agents.len(),
        path_eq(agents[k].managed_dir, dir),
    ensures
        position_below(agents, dir, n) matches Some(i) && 0 <= i <= k && path_eq(
            agents[i].managed_dir,
            dir,
        ),
    decreases n,
{
    if k < n - 1 {
        lemma_position_found(agents, dir, n - 1, k);
    } else {
        lemma_position_none_or_found(agents, dir, n - 1);
    }
}

proof fn lemma_position_none_or_found(agents: Seq<AgentRecordView>, dir: Seq<char>, n: int)
    requires
        0 <= n <= agents.len(),
    ensures
        position_below(agents, dir, n) matches Some(i) ==> 0 <= i < n && path_eq(
            agents[i].managed_dir,
            dir,
        ),
    decreases n,
{
    if n > 0 {
        lemma_position_none_or_found(agents, dir, n - 1);
    }
}

/// Installing a directory that an agent is already registered for (by any
/// path naming the same directory) registers no second agent: the
/// registry holds at most one agent per Managed Directory.
pub proof fn law_install_registers_once(agents: Seq<AgentRecordView>, dir: Seq<char>, k: int)
    requires
        0 <= k < agents.len(),
        path_eq(agents[k].managed_dir, dir),
    ensures
        position_below(agents, dir, agents.len() as int) is Some,
{
    lemma_position_found(agents, dir, agents.len() as int, k);
}

/// The index of the agent registered for the Managed Directory `dir`.
pub fn registered_index(agents: &Vec<AgentRecord>, dir: &str) -> (r: Option<usize>)
    ensures
        r matches Some(i) ==> position_below(agent_views(agents@), dir@, agents.len() as int) == Some(
            i as int,
        ) && i < agents.len(),
        r is None ==> position_below(agent_views(agents@), dir@, agents.len() as int) is None,
{
    let ghost av = agent_views(agents@);
    let mut i: usize = 0;
    while i < agents.len()
        invariant
            i <= agents.len(),
            av == agent_views(agents@),
            position_below(av, dir@, i as int) is None,
        decreases agents.len() - i,
    {
        assert(av[i as int] == agents@[i as int]@);
        if path_eq_exec(agents[i].managed_dir.as_str(), dir) {
            proof {
                lemma_position_stable(av, dir@, i + 1, av.len() as int);
            }
            return Some(i);
        }
        i += 1;
    }
    None
}

proof fn lemma_position_stable(agents: Seq<AgentRecordView>, dir: Seq<char>, n: int, m: int)
    requires
        n <= m,
        position_below(agents, dir, n) is Some,
    ensures
        position_below(agents, dir, m) == position_below(agents, dir, n),
    decreases m - n,
{
    if n < m {
        lemma_position_stable(agents, dir, n, m - 1);
    }
}

/// The header line of the registry file.
pub open spec fn registry_header() -> Seq<char> {
    "identity\tmanaged_dir\tagent_home"@
}

/// The registry line of one agent.
pub open spec fn registry_line(a: AgentRecordView) -> Seq<char> {
    a.identity + seq!['\t'] + a.managed_dir + seq!['\t'] + a.agent_home
}

/// The registry lines, header first.
pub open spec fn registry_lines(agents: Seq<AgentRecordView>) -> Seq<Seq<char>> {
    seq![registry_header()] + agents.map_values(|a: AgentRecordView| registry_line(a))
}

/// The registry file: a header line, then one tab-separated line per agent.
pub open spec fn registry_text(agents: Seq<AgentRecordView>) -> Seq<char> {
    text_of_lines(registry_lines(agents))
}

proof fn lemma_text_of_lines_append(a: Seq<Seq<char>>, l: Seq<char>)
    ensures
        text_of_lines(a.push(l)) == text_of_lines(a) + l + seq!['\n'],
    decreases a.len(),
{
    if a.len() == 0 {
        assert(a.push(l).drop_first() =~= Seq::<Seq<char>>::empty());
        assert(text_of_lines(a.push(l).drop_first()) == Seq::<char>::empty());
        assert(text_of_lines(a) == Seq::<char>::empty());
        assert(a.push(l)[0] == l);
        assert(text_of_lines(a.push(l)) =~= l + seq!['\n']);
    } else {
        assert(a.push(l).drop_first() =~= a.drop_first().push(l));
        lemma_text_of_lines_append(a.drop_first(), l);
        assert(text_of_lines(a.push(l)) =~= text_of_lines(a) + l + seq!['\n']);
    }
}

/// The registry file listing `agents`.
pub fn format_registry(agents: &Vec<AgentRecord>) -> (out: String)
    ensures
        out@ == registry_text(agent_views(agents@)),
{
    let ghost av = agent_views(agents@);
    let mut v = chars_of("identity\tmanaged_dir\tagent_home");
    v.push('\n');
    proof {
        lemma_text_of_lines_append(Seq::empty(), registry_header());
        assert(Seq::<Seq<char>>::empty().push(registry_header()) =~= seq![registry_header()]);
        assert(v@ =~= text_of_lines(seq![registry_header()]));
    }
    let mut i: usize = 0;
    while i < agents.len()
        invariant
            i <= agents.len(),
            av == agent_views(agents@),
            v@ == text_of_lines(registry_lines(av.take(i as int))),
        decreases agents.len() - i,
    {
        let a = &agents[i];
        let ghost before = v@;
        extend_str(&mut v, a.identity.as_str());
        v.push('\t');
        extend_str(&mut v, a.managed_dir.as_str());
        v.push('\t');
        extend_str(&mut v, a.agent_home.as_str());
        v.push('\n');
        proof {
            assert(av[i as int] == a@);
            assert(registry_lines(av.take(i + 1)) =~= registry_lines(av.take(i as int)).push(
                registry_line(a@),
            ));
            lemma_text_of_lines_append(registry_lines(av.take(i as int)), registry_line(a@));
            assert(v@ =~= before + registry_line(a@) + seq!['\n']);
        }
        i += 1;
    }
    assert(av.take(agents.len() as int) =~= av);
    string_of(v.as_slice())
}

/// One registry line read back: exactly three tab-separated fields.
pub open spec fn parse_registry_line(l: Seq<char>) -> Option<AgentRecordView> {
    let fields = split(l, seq!['\t']);
    if fields.len() == 3 {
        Some(AgentRecordView { identity: fields[0], managed_dir: fields[1], agent_home: fields[2] })
    } else {
        None
    }
}

/// The agents read from registry lines; lines without three fields are skipped.
pub open spec fn parse_registry_lines(ls: Seq<Seq<char>>) -> Seq<AgentRecordView>
    decreases ls.len(),
{
    if ls.len() == 0 {
        Seq::empty()
    } else {
        let prev = parse_registry_lines(ls.drop_last());
        match parse_registry_line(ls.last()) {
            Some(a) => prev.push(a),
            None => prev,
        }
    }
}

/// The agents listed in a registry file: every line after the header.
pub open spec fn parse_registry_spec(text: Seq<char>) -> Seq<AgentRecordView> {
    let ls = lines(text);
    if ls.len() == 0 {
        Seq::empty()
    } else {
        parse_registry_lines(ls.drop_first())
    }
}

/// Reads the registry file: one agent per line after the header, lines
/// without exactly three tab-separated fields skipped.
pub fn parse_registry(text: &str) -> (out: Vec<AgentRecord>)
    ensures
        agent_views(out@) == parse_registry_spec(text@),
{
    let t = chars_of(text);
    let ls = lines_exec(t.as_slice());
    let ghost lv = lines(text@);
    let tab = vec!['\t'];
    assert(tab@ =~= seq!['\t']);
    let mut out: Vec<AgentRecord> = Vec::new();
    if ls.len() == 0 {
        assert(agent_views(out@) =~= Seq::<AgentRecordView>::empty());
        return out;
    }
    let mut i: usize = 1;
    while i < ls.len()
        invariant
            1 <= i <= ls.len(),
            views(ls@) == lv,
            tab@ == seq!['\t'],
            agent_views(out@) == parse_registry_lines(lv.drop_first().take(i - 1)),
        decreases ls.len() - i,
    {
        assert(lv.drop_first().take(i as int).drop_last() =~= lv.drop_first().take(i - 1));
        assert(lv.drop_first().take(i as int).last() == ls@[i as int]@);
        let fields = split_exec(ls[i].as_slice(), tab.as_slice());
        if fields.len() == 3 {
            let a = AgentRecord {
                identity: string_of(fields[0].as_slice()),
                managed_dir: string_of(fields[1].as_slice()),
                agent_home: string_of(fields[2].as_slice()),
            };
            let ghost before = agent_views(out@);
            out.push(a);
            assert(agent_views(out@) =~= before.push(a@));
        }
        i += 1;
    }
    assert(lv.drop_first().take(ls.len() - 1) =~= lv.drop_first());
    out
}

/// A registry field: no tab and no newline.
pub open spec fn is_registry_field(s: Seq<char>) -> bool {
    forall|i: int| 0 <= i < s.len() ==> s[i] != '\t' && s[i] != '\n'
}

proof fn lemma_split_no_sep(s: Seq<char>, c: char)
    requires
        forall|i: int| 0 <= i < s.len() ==> s[i] != c,
    ensures
        split(s, seq![c]) == seq![s],
{
    crate::text::lemma_find_from_bounds(s, seq![c], 0);
    if find_from(s, seq![c], 0) is Some {
        let i = find_from(s, seq![c], 0)->Some_0;
        assert(s.subrange(i, i + 1)[0] == s[i]);
    }
    assert(s.subrange(0, s.len() as int) =~= s);
}

/// The registry read back from the file written for `agents` lists the
/// same agents, in order, when no field holds a tab or a newline and no
/// Agent Home ends with a carriage return.
pub proof fn law_registry_round_trip(agents: Seq<AgentRecordView>)
    requires
        forall|k: int|
            0 <= k < agents.len() ==> is_registry_field((#[trigger] agents[k]).identity)
                && is_registry_field(agents[k].managed_dir) && is_registry_field(
                agents[k].agent_home,
            ) && (agents[k].agent_home.len() == 0 || agents[k].agent_home.last() != '\r'),
    ensures
        parse_registry_spec(registry_text(agents)) == agents,
{
    reveal_strlit("identity\tmanaged_dir\tagent_home");
    let ls = registry_lines(agents);
    assert forall|k: int| 0 <= k < ls.len() implies is_line(#[trigger] ls[k]) by {
        if k == 0 {
            assert(ls[0] == registry_header());
        } else {
            let a = agents[k - 1];
            assert(ls[k] == registry_line(a));
            let l = registry_line(a);
            assert forall|i: int| 0 <= i < l.len() implies l[i] != '\n' by {
                if i < a.identity.len() {
                    assert(l[i] == a.identity[i]);
                } else if i == a.identity.len() {
                } else if i < a.identity.len() + 1 + a.managed_dir.len() {
                    assert(l[i] == a.managed_dir[i - a.identity.len() - 1]);
                } else if i == a.identity.len() + 1 + a.managed_dir.len() {
                } else {
                    assert(l[i] == a.agent_home[i - a.identity.len() - 2 - a.managed_dir.len()]);
                }
            }
            if a.agent_home.len() > 0 {
                assert(l.last() == a.agent_home.last());
            }
        }
    }
    lemma_lines_of_text(ls);
    assert(lines(registry_text(agents)).drop_first() =~= agents.map_values(
        |a: AgentRecordView| registry_line(a),
    ));
    lemma_parse_registry_lines(agents, agents.len() as int);
    assert(agents.take(agents.len() as int) =~= agents);
    assert(agents.map_values(|a: AgentRecordView| registry_line(a)) =~= agents.take(
        agents.len() as int,
    ).map_values(|a: AgentRecordView| registry_line(a)));
}

proof fn lemma_parse_registry_lines(agents: Seq<AgentRecordView>, n: int)
    requires
        0 <= n <= agents.len(),
        forall|k: int|
            0 <= k < agents.len() ==> is_registry_field((#[trigger] agents[k]).identity)
                && is_registry_field(agents[k].managed_dir) && is_registry_field(
                agents[k].agent_home,
            ),
    ensures
        parse_registry_lines(agents.take(n).map_values(|a: AgentRecordView| registry_line(a)))
            == agents.take(n),
    decreases n,
{
    if n > 0 {
        lemma_parse_registry_lines(agents, n - 1);
        let ms = agents.take(n).map_values(|a: AgentRecordView| registry_line(a));
        assert(ms.drop_last() =~= agents.take(n - 1).map_values(
            |a: AgentRecordView| registry_line(a),
        ));
        let a = agents[n - 1];
        assert(ms.last() == registry_line(a));
        assert forall|i: int| 0 <= i < a.identity.len() implies a.identity[i] != '\t' by {
            assert(is_registry_field(a.identity));
        }
        assert forall|i: int| 0 <= i < a.managed_dir.len() implies a.managed_dir[i] != '\t' by {
            assert(is_registry_field(a.managed_dir));
        }
        assert forall|i: int| 0 <= i < a.agent_home.len() implies a.agent_home[i] != '\t' by {
            assert(is_registry_field(a.agent_home));
        }
        lemma_split_cons(a.identity, '\t', a.managed_dir + seq!['\t'] + a.agent_home);
        lemma_split_cons(a.managed_dir, '\t', a.agent_home);
        lemma_split_no_sep(a.agent_home, '\t');
        assert(registry_line(a) =~= a.identity + seq!['\t'] + (a.managed_dir + seq!['\t']
            + a.agent_home));
        assert(agents.take(n) =~= agents.take(n - 1).push(a));
    }
}


// ---------------------------------------------------------------------------
// Installing a Managed Directory.
// ---------------------------------------------------------------------------

/// The Ownership Event summary recorded in the parent's history when a new
/// nested Managed Directory takes over part of its subtree.
pub open spec fn split_summary(affected: Seq<char>) -> Seq<char> {
    "Ownership split: "@ + affected
}

/// What installing a directory does beside creating its Agent Home.
pub struct InstallPlan {
    /// A Registered Agent is started for the directory (none is yet).
    pub register: bool,
    /// The parent agent and the summary of the Ownership Event recorded in
    /// its history, when the directory was not managed before and lies
    /// inside another Managed Directory.
    pub split: Option<(usize, String)>,
}

/// Decides what installing `managed_dir` does to the Agent Registry.
pub fn plan_install(agents: &Vec<AgentRecord>, managed_dir: &str, was_already_managed: bool) -> (p:
    InstallPlan)
    ensures
        p.register == (position_below(agent_views(agents@), managed_dir@, agents.len() as int) is None),
        p.split is None <==> (was_already_managed || parent_index(
            agent_views(agents@),
            managed_dir@,
        ) is None),
        p.split matches Some(s) ==> parent_index(agent_views(agents@), managed_dir@) == Some(
            s.0 as int,
        ) && s.0 < agents.len() && relative(agents@[s.0 as int].managed_dir@, managed_dir@) is Some
            && s.1@ == split_summary(
            relative(agents@[s.0 as int].managed_dir@, managed_dir@).unwrap(),
        ),
{
    let parent = parent_agent_index(agents, managed_dir);
    let register = registered_index(agents, managed_dir).is_none();
    if was_already_managed {
        return InstallPlan { register, split: None };
    }
    match parent {
        None => InstallPlan { register, split: None },
        Some(i) => {
            proof {
                law_parent_is_deepest(agent_views(agents@), managed_dir@);
                assert(agent_views(agents@)[i as int] == agents@[i as int]@);
            }
            match relative_path(agents[i].managed_dir.as_str(), managed_dir) {
                Some(affected) => {
                    let mut v = chars_of("Ownership split: ");
                    extend_str(&mut v, affected.as_str());
                    InstallPlan { register, split: Some((i, string_of(v.as_slice()))) }
                },
                None => InstallPlan { register, split: None },
            }
        },
    }
}

/// The reply to an install request.
pub open spec fn install_response(already: bool, managed_dir: Seq<char>, identity: Seq<char>) -> Seq<
    char,
> {
    (if already {
        "already managed directory"@
    } else {
        "installed managed directory"@
    }) + seq![' '] + managed_dir + "\nagent "@ + trim(identity) + seq!['\n']
}

/// The reply to an install request: the status line and the agent.
pub fn format_install_response(already: bool, managed_dir: &str, identity: &str) -> (out: String)
    ensures
        out@ == install_response(already, managed_dir@, identity@),
{
    let mut v = if already {
        chars_of("already managed directory")
    } else {
        chars_of("installed managed directory")
    };
    v.push(' ');
    extend_str(&mut v, managed_dir);
    extend_str(&mut v, "\nagent ");
    let ic = chars_of(identity);
    let t = trim_exec(ic.as_slice());
    extend_chars(&mut v, t.as_slice());
    v.push('\n');
    assert(v@ =~= install_response(already, managed_dir@, identity@));
    string_of(v.as_slice())
}

/// A fresh Agent Identity from the process id and the time in nanoseconds,
/// as written to the identity file.
pub fn new_agent_identity(pid: u32, nanos: u128) -> (out: String)
    ensures
        out@ == "agent-"@ + decimal(pid as nat) + seq!['-'] + decimal(nanos as nat) + seq!['\n'],
{
    let mut v = chars_of("agent-");
    push_decimal(&mut v, pid as u128);
    v.push('-');
    push_decimal(&mut v, nanos);
    v.push('\n');
    string_of(v.as_slice())
}

// ---------------------------------------------------------------------------
// Removing a Managed Directory.
// ---------------------------------------------------------------------------

/// Why a removal is refused.
#[derive(Debug, Clone, Copy, PartialEq, Eq, Structural)]
pub enum RemoveRefusal {
    /// No Registered Agent manages the directory.
    NotInstalled,
    /// The directory holds the Supervisor Home.
    ContainsSupervisorHome,
}

impl RemoveRefusal {
    /// The error text of the refusal.
    pub open spec fn text(self) -> Seq<char> {
        match self {
            RemoveRefusal::NotInstalled => "managed directory is not installed"@,
            RemoveRefusal::ContainsSupervisorHome =>
                "cannot remove a managed directory that contains the AFS supervisor home"@,
        }
    }

    /// The error text of the refusal.
    pub fn message(&self) -> (m: String)
        ensures
            m@ == self.text(),
    {
        match self {
            RemoveRefusal::NotInstalled => "managed directory is not installed".to_string(),
            RemoveRefusal::ContainsSupervisorHome =>
                "cannot remove a managed directory that contains the AFS supervisor home".to_string(),
        }
    }
}

/// The agent that a removal stops, and its parent agent when the directory
/// is nested.
pub struct RemovePlan {
    pub agent_index: usize,
    pub parent_index: Option<usize>,
}

/// Decides whether `managed_dir` can be removed and which agents take part.
pub fn plan_remove(agents: &Vec<AgentRecord>, supervisor_home: &str, managed_dir: &str) -> (r: Result<
    RemovePlan,
    RemoveRefusal,
>)
    ensures
        position_below(agent_views(agents@), managed_dir@, agents.len() as int) is None ==> r == Err::<
            RemovePlan,
            RemoveRefusal,
        >(RemoveRefusal::NotInstalled),
        position_below(agent_views(agents@), managed_dir@, agents.len() as int) matches Some(i) ==> (
        if path_starts_with(supervisor_home@, managed_dir@) {
            r == Err::<RemovePlan, RemoveRefusal>(RemoveRefusal::ContainsSupervisorHome)
        } else {
            r matches Ok(p) && p.agent_index == i && p.agent_index < agents.len() && (match p.parent_index {
                Some(j) => parent_index(agent_views(agents@), managed_dir@) == Some(j as int),
                None => parent_index(agent_views(agents@), managed_dir@) is None,
            })
        }),
{
    let agent_index = match registered_index(agents, managed_dir) {
        None => return Err(RemoveRefusal::NotInstalled),
        Some(i) => i,
    };
    if path_starts_with_exec(supervisor_home, managed_dir) {
        return Err(RemoveRefusal::ContainsSupervisorHome);
    }
    let parent_index = parent_agent_index(agents, managed_dir);
    Ok(RemovePlan { agent_index, parent_index })
}

/// What became of the Agent Home of a removed agent.
#[derive(Debug, Clone, Copy, PartialEq, Eq, Structural)]
pub enum RemoveOutcome {
    Archived,
    Discarded,
    Missing,
}

/// A missing Agent Home is reported as such; otherwise it is discarded when
/// asked, and archived by default.
pub fn remove_outcome(home_exists: bool, discard_history: bool) -> (o: RemoveOutcome)
    ensures
        o == (if !home_exists {
            RemoveOutcome::Missing
        } else if discard_history {
            RemoveOutcome::Discarded
        } else {
            RemoveOutcome::Archived
        }),
{
    if !home_exists {
        RemoveOutcome::Missing
    } else if discard_history {
        RemoveOutcome::Discarded
    } else {
        RemoveOutcome::Archived
    }
}

/// The Ownership Event summary recorded in the parent's history when a
/// nested Managed Directory is removed.
pub open spec fn merge_summary(child_origin: Seq<char>, outcome: RemoveOutcome) -> Seq<char> {
    "Ownership merge: "@ + child_origin + match outcome {
        RemoveOutcome::Archived => Seq::<char>::empty(),
        RemoveOutcome::Discarded => " (history discarded)"@,
        RemoveOutcome::Missing => " (home missing)"@,
    }
}

/// The Ownership Event summary recorded in the parent's history when a
/// nested Managed Directory is removed.
pub fn ownership_merge_summary(child_origin: &str, outcome: RemoveOutcome) -> (out: String)
    ensures
        out@ == merge_summary(child_origin@, outcome),
{
    let mut v = chars_of("Ownership merge: ");
    extend_str(&mut v, child_origin);
    match outcome {
        RemoveOutcome::Archived => {},
        RemoveOutcome::Discarded => extend_str(&mut v, " (history discarded)"),
        RemoveOutcome::Missing => extend_str(&mut v, " (home missing)"),
    }
    assert(v@ =~= merge_summary(child_origin@, outcome));
    string_of(v.as_slice())
}

/// A character kept in an archive name: ASCII letters and digits, `-`, `_`.
pub open spec fn is_archive_char(c: char) -> bool {
    ('a' <= c && c <= 'z') || ('A' <= c && c <= 'Z') || ('0' <= c && c <= '9') || c == '-' || c
        == '_'
}

/// Every other character replaced by `-`; `agent` for the empty string.
pub open spec fn archive_safe(value: Seq<char>) -> Seq<char> {
    if value.len() == 0 {
        "agent"@
    } else {
        value.map_values(|c: char|
            if is_archive_char(c) {
                c
            } else {
                '-'
            })
    }
}

/// A name safe for an archive directory: never empty, and made only of
/// ASCII letters and digits, `-` and `_`.
pub fn archive_safe_name(value: &str) -> (out: String)
    ensures
        out@ == archive_safe(value@),
        out@.len() > 0,
        forall|k: int| 0 <= k < out@.len() ==> is_archive_char(#[trigger] out@[k]),
{
    let cs = chars_of(value);
    if cs.len() == 0 {
        proof {
            reveal_strlit("agent");
        }
        return "agent".to_string();
    }
    let mut v: Vec<char> = Vec::new();
    let mut i: usize = 0;
    while i < cs.len()
        invariant
            i <= cs.len(),
            cs@ == value@,
            v@ == value@.take(i as int).map_values(|c: char|
                if is_archive_char(c) {
                    c
                } else {
                    '-'
                }),
        decreases cs.len() - i,
    {
        let c = cs[i];
        let keep = ('a' <= c && c <= 'z') || ('A' <= c && c <= 'Z') || ('0' <= c && c <= '9') || c
            == '-' || c == '_';
        v.push(
            if keep {
                c
            } else {
                '-'
            },
        );
        assert(v@ =~= value@.take(i + 1).map_values(|c: char|
            if is_archive_char(c) {
                c
            } else {
                '-'
            }));
        i += 1;
    }
    assert(value@.take(cs.len() as int) =~= value@);
    string_of(v.as_slice())
}

/// `Path::file_name`: the last component, unless the path ends in the
/// root, `.` or `..`.
pub open spec fn file_name(p: Seq<char>) -> Option<Seq<char>> {
    let c = components(p);
    if c.len() > 0 && c.last() != seq!['/'] && c.last() != seq!['.'] && c.last() != seq!['.', '.'] {
        Some(c.last())
    } else {
        None
    }
}

/// `Path::file_name`.
pub fn file_name_exec(p: &str) -> (r: Option<String>)
    ensures
        r matches Some(n) ==> file_name(p@) == Some(n@),
        r is None ==> file_name(p@) is None,
{
    let pc = chars_of(p);
    let c = components_exec(pc.as_slice());
    if c.len() == 0 {
        return None;
    }
    let last = &c[c.len() - 1];
    assert(last@ == components(p@).last());
    let dot2 = vec!['.', '.'];
    let dot = vec!['.'];
    let root = vec!['/'];
    assert(root@ =~= seq!['/']);
    assert(dot@ =~= seq!['.']);
    assert(dot2@ =~= seq!['.', '.']);
    if chars_eq(last.as_slice(), root.as_slice()) || chars_eq(last.as_slice(), dot.as_slice())
        || chars_eq(last.as_slice(), dot2.as_slice()) {
        None
    } else {
        Some(string_of(last.as_slice()))
    }
}

/// The archive name of a removed top-level agent: the directory's last
/// component (`managed` when it has none), `-`, and its identity.
pub open spec fn top_level_archive_name(managed_dir: Seq<char>, identity: Seq<char>) -> Seq<char> {
    let last = match file_name(managed_dir) {
        Some(n) => n,
        None => "managed"@,
    };
    archive_safe(last + seq!['-'] + trim(identity))
}

/// The archive name of a removed top-level agent.
pub fn top_level_archive(managed_dir: &str, identity: &str) -> (out: String)
    ensures
        out@ == top_level_archive_name(managed_dir@, identity@),
{
    let mut v = match file_name_exec(managed_dir) {
        Some(n) => chars_of(n.as_str()),
        None => chars_of("managed"),
    };
    v.push('-');
    let ic = chars_of(identity);
    let t = trim_exec(ic.as_slice());
    extend_chars(&mut v, t.as_slice());
    let s = string_of(v.as_slice());
    archive_safe_name(s.as_str())
}

/// The archive name of a removed nested agent: its identity.
pub fn nested_archive(identity: &str) -> (out: String)
    ensures
        out@ == archive_safe(trim(identity@)),
{
    let ic = chars_of(identity);
    let t = trim_exec(ic.as_slice());
    let s = string_of(t.as_slice());
    archive_safe_name(s.as_str())
}

/// Where an Agent Home is archived: the archive name and the time in
/// nanoseconds, inside the archive root.
pub fn archived_home_path(archive_root: &str, archive_name: &str, nanos: u128) -> (out: String)
    ensures
        out@ == join(archive_root@, archive_name@ + seq!['-'] + decimal(nanos as nat)),
{
    let mut v = chars_of(archive_name);
    v.push('-');
    push_decimal(&mut v, nanos);
    let name = string_of(v.as_slice());
    join_exec(archive_root, name.as_str())
}

/// The label of the Agent Home line in a removal reply.
pub open spec fn home_label(outcome: RemoveOutcome) -> Seq<char> {
    match outcome {
        RemoveOutcome::Archived => "archived_agent_home"@,
        RemoveOutcome::Discarded => "discarded_agent_home"@,
        RemoveOutcome::Missing => "missing_agent_home"@,
    }
}

/// The reply to a removal.
pub open spec fn remove_response(
    managed_dir: Seq<char>,
    identity: Seq<char>,
    home_path: Seq<char>,
    outcome: RemoveOutcome,
) -> Seq<char> {
    "removed managed directory "@ + managed_dir + "\nagent "@ + trim(identity) + seq!['\n']
        + home_label(outcome) + seq![' '] + home_path + seq!['\n']
}

/// The reply to a removal tells what became of the Agent Home, each
/// outcome by its own label (`archived_agent_home`,
/// `discarded_agent_home`, `missing_agent_home`): replies for different
/// outcomes differ.
pub proof fn law_remove_reply_names_outcome(
    managed_dir: Seq<char>,
    identity: Seq<char>,
    home_path: Seq<char>,
    a: RemoveOutcome,
    b: RemoveOutcome,
)
    ensures
        remove_response(managed_dir, identity, home_path, a) == remove_response(
            managed_dir,
            identity,
            home_path,
            b,
        ) ==> a == b,
        remove_response(managed_dir, identity, home_path, RemoveOutcome::Archived) == "removed managed directory "@
            + managed_dir + "\nagent "@ + trim(identity) + "\narchived_agent_home "@ + home_path + "\n"@,
        remove_response(managed_dir, identity, home_path, RemoveOutcome::Discarded) == "removed managed directory "@
            + managed_dir + "\nagent "@ + trim(identity) + "\ndiscarded_agent_home "@ + home_path + "\n"@,
        remove_response(managed_dir, identity, home_path, RemoveOutcome::Missing) == "removed managed directory "@
            + managed_dir + "\nagent "@ + trim(identity) + "\nmissing_agent_home "@ + home_path + "\n"@,
{
    reveal_strlit("archived_agent_home");
    reveal_strlit("discarded_agent_home");
    reveal_strlit("missing_agent_home");
    reveal_strlit("\narchived_agent_home ");
    reveal_strlit("\ndiscarded_agent_home ");
    reveal_strlit("\nmissing_agent_home ");
    reveal_strlit("\n");
    let head = "removed managed directory "@ + managed_dir + "\nagent "@ + trim(identity);
    assert(remove_response(managed_dir, identity, home_path, RemoveOutcome::Archived) =~= head
        + "\narchived_agent_home "@ + home_path + "\n"@);
    assert(remove_response(managed_dir, identity, home_path, RemoveOutcome::Discarded) =~= head
        + "\ndiscarded_agent_home "@ + home_path + "\n"@);
    assert(remove_response(managed_dir, identity, home_path, RemoveOutcome::Missing) =~= head
        + "\nmissing_agent_home "@ + home_path + "\n"@);
    if a != b {
        assert(home_label(a).len() != home_label(b).len());
        assert(remove_response(managed_dir, identity, home_path, a).len() != remove_response(
            managed_dir,
            identity,
            home_path,
            b,
        ).len());
    }
}

/// The reply to a removal: the directory, the agent, and what became of
/// its Agent Home.
pub fn format_remove_response(
    managed_dir: &str,
    identity: &str,
    home_path: &str,
    outcome: RemoveOutcome,
) -> (out: String)
    ensures
        out@ == remove_response(managed_dir@, identity@, home_path@, outcome),
{
    let mut v = chars_of("removed managed directory ");
    extend_str(&mut v, managed_dir);
    extend_str(&mut v, "\nagent ");
    let ic = chars_of(identity);
    let t = trim_exec(ic.as_slice());
    extend_chars(&mut v, t.as_slice());
    v.push('\n');
    match outcome {
        RemoveOutcome::Archived => extend_str(&mut v, "archived_agent_home"),
        RemoveOutcome::Discarded => extend_str(&mut v, "discarded_agent_home"),
        RemoveOutcome::Missing => extend_str(&mut v, "missing_agent_home"),
    }
    v.push(' ');
    extend_str(&mut v, home_path);
    v.push('\n');
    assert(v@ =~= remove_response(managed_dir@, identity@, home_path@, outcome));
    string_of(v.as_slice())
}

// ---------------------------------------------------------------------------
// The agent listing.
// ---------------------------------------------------------------------------

/// The state of an agent's local text index.
#[derive(Clone, Copy, Debug)]
pub enum IndexState {
    /// Warming, with no progress known yet.
    Warming,
    /// Warming; `scanned` files scanned so far.
    WarmingScanned { scanned: u64 },
    /// Warming; `scanned` of `total` files scanned.
    WarmingScannedOf { scanned: u64, total: u64 },
    /// Current, holding `files` files.
    Ready { files: u64 },
    /// Done, but `failed` files could not be extracted.
    Incomplete { files: u64, failed: u64 },
}

/// The state of an agent's Startup Reconciliation.
#[derive(Clone, Copy, Debug)]
pub enum ReconciliationState {
    Idle,
    Running,
    Complete { changed_files: u64 },
    Error,
}

/// What the listing shows of one Registered Agent.
pub struct AgentStatus {
    pub managed_dir: String,
    pub identity: String,
    /// Its Pi Agent Runtime process has not exited.
    pub running: bool,
    pub index: IndexState,
    pub reconciliation: ReconciliationState,
    /// It is handling a turn right now.
    pub active: bool,
    pub queued_tasks: usize,
}

/// The `index=` value of the listing.
pub open spec fn index_text(i: IndexState) -> Seq<char> {
    match i {
        IndexState::Warming => "warming"@,
        IndexState::WarmingScanned { scanned } => "warming(scanned="@ + decimal(scanned as nat)
            + ")"@,
        IndexState::WarmingScannedOf { scanned, total } => "warming(scanned="@ + decimal(
            scanned as nat,
        ) + "/total="@ + decimal(total as nat) + ")"@,
        IndexState::Ready { files } => "ready(files="@ + decimal(files as nat) + ")"@,
        IndexState::Incomplete { files, failed } => "incomplete(files="@ + decimal(files as nat)
            + ", failed="@ + decimal(failed as nat) + ")"@,
    }
}

/// The `reconciliation=` value of the listing.
pub open spec fn reconciliation_text(r: ReconciliationState) -> Seq<char> {
    match r {
        ReconciliationState::Idle => "idle"@,
        ReconciliationState::Running => "running"@,
        ReconciliationState::Complete { changed_files } => "complete(changed_files="@ + decimal(
            changed_files as nat,
        ) + ")"@,
        ReconciliationState::Error => "error"@,
    }
}

/// `true` or `false`.
pub open spec fn bool_text(b: bool) -> Seq<char> {
    if b {
        "true"@
    } else {
        "false"@
    }
}

/// The listing line of one agent:
/// `<managed-dir> agent=<id> runtime=pi-rpc-stdio health=<running|stopped>
/// index=<index> reconciliation=<state> active=<true|false> queue=<n>`.
pub open spec fn status_line(s: AgentStatus) -> Seq<char> {
    s.managed_dir@ + " agent="@ + s.identity@ + " runtime=pi-rpc-stdio health="@ + (if s.running {
        "running"@
    } else {
        "stopped"@
    }) + " index="@ + index_text(s.index) + " reconciliation="@ + reconciliation_text(
        s.reconciliation,
    ) + " active="@ + bool_text(s.active) + " queue="@ + decimal(s.queued_tasks as nat) + seq![
        '\n',
    ]
}

/// The concatenated listing lines of the first `n` agents.
pub open spec fn status_lines(agents: Seq<AgentStatus>, n: int) -> Seq<char>
    decreases n,
{
    if n <= 0 {
        Seq::empty()
    } else {
        status_lines(agents, n - 1) + status_line(agents[n - 1])
    }
}

/// The reply to an agents request.
pub open spec fn agents_listing(agents: Seq<AgentStatus>) -> Seq<char> {
    if agents.len() == 0 {
        "no agents registered\n"@
    } else {
        status_lines(agents, agents.len() as int)
    }
}

/// Appends the `index=` value.
fn push_index_text(v: &mut Vec<char>, i: &IndexState)
    ensures
        final(v)@ == old(v)@ + index_text(*i),
{
    match i {
        IndexState::Warming => extend_str(v, "warming"),
        IndexState::WarmingScanned { scanned } => {
            extend_str(v, "warming(scanned=");
            push_decimal(v, *scanned as u128);
            extend_str(v, ")");
        },
        IndexState::WarmingScannedOf { scanned, total } => {
            extend_str(v, "warming(scanned=");
            push_decimal(v, *scanned as u128);
            extend_str(v, "/total=");
            push_decimal(v, *total as u128);
            extend_str(v, ")");
        },
        IndexState::Ready { files } => {
            extend_str(v, "ready(files=");
            push_decimal(v, *files as u128);
            extend_str(v, ")");
        },
        IndexState::Incomplete { files, failed } => {
            extend_str(v, "incomplete(files=");
            push_decimal(v, *files as u128);
            extend_str(v, ", failed=");
            push_decimal(v, *failed as u128);
            extend_str(v, ")");
        },
    }
    assert(v@ =~= old(v)@ + index_text(*i));
}

/// Appends the `reconciliation=` value.
fn push_reconciliation_text(v: &mut Vec<char>, r: &ReconciliationState)
    ensures
        final(v)@ == old(v)@ + reconciliation_text(*r),
{
    match r {
        ReconciliationState::Idle => extend_str(v, "idle"),
        ReconciliationState::Running => extend_str(v, "running"),
        ReconciliationState::Complete { changed_files } => {
            extend_str(v, "complete(changed_files=");
            push_decimal(v, *changed_files as u128);
            extend_str(v, ")");
        },
        ReconciliationState::Error => extend_str(v, "error"),
    }
    assert(v@ =~= old(v)@ + reconciliation_text(*r));
}

/// Appends the listing line of one agent.
fn push_status_line(v: &mut Vec<char>, a: &AgentStatus)
    ensures
        final(v)@ == old(v)@ + status_line(*a),
{
    extend_str(v, a.managed_dir.as_str());
    extend_str(v, " agent=");
    extend_str(v, a.identity.as_str());
    extend_str(v, " runtime=pi-rpc-stdio health=");
    if a.running {
        extend_str(v, "running");
    } else {
        extend_str(v, "stopped");
    }
    extend_str(v, " index=");
    push_index_text(v, &a.index);
    extend_str(v, " reconciliation=");
    push_reconciliation_text(v, &a.reconciliation);
    extend_str(v, " active=");
    if a.active {
        extend_str(v, "true");
    } else {
        extend_str(v, "false");
    }
    extend_str(v, " queue=");
    push_decimal(v, a.queued_tasks as u128);
    v.push('\n');
    assert(v@ =~= old(v)@ + status_line(*a));
}

/// The reply to an agents request: one line per Registered Agent.
pub fn format_agents(agents: &Vec<AgentStatus>) -> (out: String)
    ensures
        out@ == agents_listing(agents@),
{
    if agents.len() == 0 {
        return "no agents registered\n".to_string();
    }
    let mut v: Vec<char> = Vec::new();
    let mut i: usize = 0;
    while i < agents.len()
        invariant
            i <= agents.len(),
            v@ == status_lines(agents@, i as int),
        decreases agents.len() - i,
    {
        let ghost before = v@;
        push_status_line(&mut v, &agents[i]);
        assert(v@ =~= before + status_line(agents@[i as int]));
        i += 1;
    }
    string_of(v.as_slice())
}

// ---------------------------------------------------------------------------
// Broadcast settings.
// ---------------------------------------------------------------------------

/// The broadcast reply timeout in milliseconds: the value of
/// `AFS_BROADCAST_REPLY_TIMEOUT_MS` when it is a positive `u64`, else 2000.
pub open spec fn broadcast_timeout_ms(setting: Option<Seq<char>>) -> u64 {
    match setting {
        Some(v) => match parse_u64(v) {
            Some(ms) => if ms > 0 {
                ms
            } else {
                2000
            },
            None => 2000,
        },
        None => 2000,
    }
}

/// The broadcast reply timeout in milliseconds for the setting read from
/// the environment.
pub fn broadcast_reply_timeout(setting: Option<&str>) -> (ms: u64)
    ensures
        ms == broadcast_timeout_ms(match setting {
            Some(v) => Some(v@),
            None => None,
        }),
{
    match setting {
        Some(v) => {
            let cs = chars_of(v);
            match parse_u64_exec(cs.as_slice()) {
                Some(ms) => if ms > 0 {
                    ms
                } else {
                    2000
                },
                None => 2000,
            }
        },
        None => 2000,
    }
}


// ---------------------------------------------------------------------------
// Starting a Directory Agent.
// ---------------------------------------------------------------------------

/// The Pi Agent Runtime command: `AFS_PI_RUNTIME` when set, else `pi`.
pub fn pi_runtime_command(setting: Option<&str>) -> (c: String)
    ensures
        c@ == match setting {
            Some(s) => s@,
            None => "pi"@,
        },
{
    match setting {
        Some(s) => s.to_string(),
        None => "pi".to_string(),
    }
}

/// The arguments the Pi Agent Runtime of a Directory Agent is started with.
pub open spec fn runtime_args(managed_dir: Seq<char>, agent_home: Seq<char>, identity: Seq<char>) -> Seq<
    Seq<char>,
> {
    seq![
        "agent"@,
        "--rpc"@,
        "stdio"@,
        "--managed-dir"@,
        managed_dir,
        "--agent-home"@,
        agent_home,
        "--identity"@,
        identity,
    ]
}

/// The arguments the Pi Agent Runtime of a Directory Agent is started with.
pub fn agent_runtime_args(managed_dir: &str, agent_home: &str, identity: &str) -> (out: Vec<String>)
    ensures
        crate::text::string_views(out@) == runtime_args(managed_dir@, agent_home@, identity@),
{
    let out = vec![
        "agent".to_string(),
        "--rpc".to_string(),
        "stdio".to_string(),
        "--managed-dir".to_string(),
        managed_dir.to_string(),
        "--agent-home".to_string(),
        agent_home.to_string(),
        "--identity".to_string(),
        identity.to_string(),
    ];
    assert(crate::text::string_views(out@) =~= runtime_args(managed_dir@, agent_home@, identity@));
    out
}

/// The environment the Pi Agent Runtime of a Directory Agent is started
/// with, as name and value pairs.
pub fn agent_runtime_env(managed_dir: &str, agent_home: &str, identity: &str) -> (out: Vec<(String, String)>)
    ensures
        out@.len() == 4,
        out@[0].0@ == "AFS_AGENT_ID"@ && out@[0].1@ == identity@,
        out@[1].0@ == "AFS_AGENT_HOME"@ && out@[1].1@ == agent_home@,
        out@[2].0@ == "AFS_MANAGED_DIR"@ && out@[2].1@ == managed_dir@,
        out@[3].0@ == "AFS_AGENT_RPC"@ && out@[3].1@ == "stdio"@,
{
    vec![
        ("AFS_AGENT_ID".to_string(), identity.to_string()),
        ("AFS_AGENT_HOME".to_string(), agent_home.to_string()),
        ("AFS_MANAGED_DIR".to_string(), managed_dir.to_string()),
        ("AFS_AGENT_RPC".to_string(), "stdio".to_string()),
    ]
}

/// The message when the Pi Agent Runtime command does not exist.
pub fn runtime_not_found_message(runtime: &str) -> (m: String)
    ensures
        m@ == "AFS agent runtime not found: "@ + runtime@ + " (set AFS_PI_RUNTIME)"@,
{
    let mut v = chars_of("AFS agent runtime not found: ");
    extend_str(&mut v, runtime);
    extend_str(&mut v, " (set AFS_PI_RUNTIME)");
    string_of(v.as_slice())
}

} // verus!
