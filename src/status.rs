//! The status query: parsing the usage and inspect snapshots into records,
//! and joining them by container name.
use vstd::prelude::*;
use crate::keyed::{
    first_keys, keyed, lemma_first_keys, lemma_first_keys_len, lemma_keyed_dom, lemma_keyed_last,
    lemma_keyed_value,
};
use crate::text::{
    all_ws, clean_name, cleaned_name, join_fields, lemma_clean_plain_name, lemma_split_join, lemma_tokens_gap,
    lemma_tokens_run, lemma_trim_no_ws, lines, no_ws, split, split_fields, split_lines, split_tokens,
    strip_slashes, tokens, trim, trimmed, views,
};

verus! {

/// One container's line of the usage snapshot.
pub struct StatsData {
    pub container_name: String,
    pub cpu: String,
    pub memory: String,
}

/// What a usage record holds.
pub struct StatsView {
    pub container_name: Seq<char>,
    pub cpu: Seq<char>,
    pub memory: Seq<char>,
}

impl View for StatsData {
    type V = StatsView;

    open spec fn view(&self) -> StatsView {
        StatsView { container_name: self.container_name@, cpu: self.cpu@, memory: self.memory@ }
    }
}

/// One container's line of the inspect snapshot.
pub struct InspectData {
    pub container_name: String,
    pub status: String,
    pub restart_policy: String,
    pub health: String,
    pub uptime: String,
    pub ports: String,
}

/// What an inspect record holds.
pub struct InspectView {
    pub container_name: Seq<char>,
    pub status: Seq<char>,
    pub restart_policy: Seq<char>,
    pub health: Seq<char>,
    pub uptime: Seq<char>,
    pub ports: Seq<char>,
}

impl View for InspectData {
    type V = InspectView;

    open spec fn view(&self) -> InspectView {
        InspectView {
            container_name: self.container_name@,
            status: self.status@,
            restart_policy: self.restart_policy@,
            health: self.health@,
            uptime: self.uptime@,
            ports: self.ports@,
        }
    }
}

/// Why a status query failed.
pub enum StatusError {
    /// A line of the usage snapshot does not have the usage layout.
    MalformedUsage(String),
    /// A line of the inspect snapshot does not have the inspect layout.
    MalformedInspect(String),
    /// The two snapshots name different sets of containers.
    Inconsistent,
}

/// The usage record on a line: three whitespace-separated fields, name, CPU
/// share and memory share, with a non-empty name.
pub open spec fn parse_usage(line: Seq<char>) -> Option<StatsView> {
    let t = tokens(line);
    if t.len() == 3 && clean_name(t[0]).len() > 0 {
        Some(StatsView { container_name: clean_name(t[0]), cpu: t[1], memory: t[2] })
    } else {
        None
    }
}

/// The inspect record on a line: six comma-separated fields, name, status,
/// restart policy, health, start time and port mappings, each trimmed, with a
/// non-empty name.
pub open spec fn parse_inspect(line: Seq<char>) -> Option<InspectView> {
    let f = split(line, ',');
    if f.len() == 6 && clean_name(f[0]).len() > 0 {
        Some(
            InspectView {
                container_name: clean_name(f[0]),
                status: trim(f[1]),
                restart_policy: trim(f[2]),
                health: trim(f[3]),
                uptime: trim(f[4]),
                ports: trim(f[5]),
            },
        )
    } else {
        None
    }
}

/// Parses one line of the usage snapshot.
pub fn parse_stats_data(line: &str) -> (r: Result<StatsData, StatusError>)
    ensures
        match parse_usage(line@) {
            Some(v) => r matches Ok(d) && d@ == v,
            None => r matches Err(StatusError::MalformedUsage(l)) && l@ == line@,
        },
{
    let t = split_tokens(line);
    if t.len() != 3 {
        return Err(StatusError::MalformedUsage(String::from_str(line)));
    }
    assert(t@[0]@ == tokens(line@)[0]);
    let name = cleaned_name(t[0].as_str());
    if name.as_str().unicode_len() == 0 {
        return Err(StatusError::MalformedUsage(String::from_str(line)));
    }
    assert(t@[1]@ == tokens(line@)[1]);
    assert(t@[2]@ == tokens(line@)[2]);
    Ok(StatsData { container_name: name, cpu: t[1].clone(), memory: t[2].clone() })
}

/// Parses one line of the inspect snapshot.
pub fn parse_inspect_data(line: &str) -> (r: Result<InspectData, StatusError>)
    ensures
        match parse_inspect(line@) {
            Some(v) => r matches Ok(d) && d@ == v,
            None => r matches Err(StatusError::MalformedInspect(l)) && l@ == line@,
        },
{
    let f = split_fields(line, ',');
    if f.len() != 6 {
        return Err(StatusError::MalformedInspect(String::from_str(line)));
    }
    let ghost fs = split(line@, ',');
    assert(forall|i: int| 0 <= i < 6 ==> f@[i]@ == fs[i]);
    let name = cleaned_name(f[0].as_str());
    if name.as_str().unicode_len() == 0 {
        return Err(StatusError::MalformedInspect(String::from_str(line)));
    }
    Ok(
        InspectData {
            container_name: name,
            status: trimmed(f[1].as_str()),
            restart_policy: trimmed(f[2].as_str()),
            health: trimmed(f[3].as_str()),
            uptime: trimmed(f[4].as_str()),
            ports: trimmed(f[5].as_str()),
        },
    )
}

/// One container's row of the status table: usage and configuration joined.
pub struct ContainerStats {
    pub name: String,
    pub status: String,
    pub health: String,
    pub restart_policy: String,
    pub uptime: String,
    pub cpu_usage: String,
    pub memory_usage: String,
    pub ports: String,
}

/// What a status row holds.
pub struct ContainerStatsView {
    pub name: Seq<char>,
    pub status: Seq<char>,
    pub health: Seq<char>,
    pub restart_policy: Seq<char>,
    pub uptime: Seq<char>,
    pub cpu_usage: Seq<char>,
    pub memory_usage: Seq<char>,
    pub ports: Seq<char>,
}

impl View for ContainerStats {
    type V = ContainerStatsView;

    open spec fn view(&self) -> ContainerStatsView {
        ContainerStatsView {
            name: self.name@,
            status: self.status@,
            health: self.health@,
            restart_policy: self.restart_policy@,
            uptime: self.uptime@,
            cpu_usage: self.cpu_usage@,
            memory_usage: self.memory_usage@,
            ports: self.ports@,
        }
    }
}

/// The views of usage records.
pub open spec fn stats_views(v: Seq<StatsData>) -> Seq<StatsView> {
    v.map_values(|d: StatsData| d@)
}

/// The views of inspect records.
pub open spec fn inspect_views(v: Seq<InspectData>) -> Seq<InspectView> {
    v.map_values(|d: InspectData| d@)
}

/// The views of status rows.
pub open spec fn row_views(v: Seq<ContainerStats>) -> Seq<ContainerStatsView> {
    v.map_values(|d: ContainerStats| d@)
}

/// Usage records keyed by container name.
pub open spec fn usage_entries(us: Seq<StatsView>) -> Seq<(Seq<char>, StatsView)> {
    us.map_values(|u: StatsView| (u.container_name, u))
}

/// Inspect records keyed by container name.
pub open spec fn inspect_entries(is: Seq<InspectView>) -> Seq<(Seq<char>, InspectView)> {
    is.map_values(|i: InspectView| (i.container_name, i))
}

/// The row that joins a usage record and an inspect record.
pub open spec fn joined(u: StatsView, i: InspectView) -> ContainerStatsView {
    ContainerStatsView {
        name: u.container_name,
        status: i.status,
        health: i.health,
        restart_policy: i.restart_policy,
        uptime: i.uptime,
        cpu_usage: u.cpu,
        memory_usage: u.memory,
        ports: i.ports,
    }
}

/// The join of two snapshots by container name, where a later record of a name
/// replaces an earlier one: one row per name, in the order in which the usage
/// snapshot first names them; `None` when the snapshots name different sets of
/// containers.
pub open spec fn correlation(us: Seq<StatsView>, is: Seq<InspectView>) -> Option<
    Seq<ContainerStatsView>,
> {
    let um = keyed(usage_entries(us));
    let im = keyed(inspect_entries(is));
    if um.dom() == im.dom() {
        Some(first_keys(usage_entries(us)).map_values(|k: Seq<char>| joined(um[k], im[k])))
    } else {
        None
    }
}

/// The index of the last usage record named `name`.
fn last_usage(us: &Vec<StatsData>, name: &String) -> (r: Option<usize>)
    ensures
        match r {
            Some(j) => j < us@.len() && us@[j as int].container_name@ == name@ && forall|m: int|
                j < m < us@.len() ==> us@[m].container_name@ != name@,
            None => forall|m: int| 0 <= m < us@.len() ==> us@[m].container_name@ != name@,
        },
{
    let mut j = us.len();
    while j > 0
        invariant
            j <= us@.len(),
            forall|m: int| j <= m < us@.len() ==> us@[m].container_name@ != name@,
        decreases j,
    {
        if us[j - 1].container_name == *name {
            return Some(j - 1);
        }
        j = j - 1;
    }
    None
}

/// The index of the last inspect record named `name`.
fn last_inspect(is: &Vec<InspectData>, name: &String) -> (r: Option<usize>)
    ensures
        match r {
            Some(j) => j < is@.len() && is@[j as int].container_name@ == name@ && forall|m: int|
                j < m < is@.len() ==> is@[m].container_name@ != name@,
            None => forall|m: int| 0 <= m < is@.len() ==> is@[m].container_name@ != name@,
        },
{
    let mut j = is.len();
    while j > 0
        invariant
            j <= is@.len(),
            forall|m: int| j <= m < is@.len() ==> is@[m].container_name@ != name@,
        decreases j,
    {
        if is[j - 1].container_name == *name {
            return Some(j - 1);
        }
        j = j - 1;
    }
    None
}

pub(crate) proof fn lemma_usage_key(us: Seq<StatsView>, k: Seq<char>)
    ensures
        keyed(usage_entries(us)).dom().contains(k) <==> exists|j: int|
            0 <= j < us.len() && us[j].container_name == k,
        keyed(usage_entries(us)).dom().contains(k) ==> keyed(usage_entries(us))[k].container_name
            == k,
{
    let e = usage_entries(us);
    lemma_keyed_dom(e, k);
    if exists|j: int| 0 <= j < us.len() && us[j].container_name == k {
        let j = choose|j: int| 0 <= j < us.len() && us[j].container_name == k;
        assert(e[j].0 == k);
    }
    if keyed(e).dom().contains(k) {
        lemma_keyed_value(e, k);
    }
}

proof fn lemma_inspect_key(is: Seq<InspectView>, k: Seq<char>)
    ensures
        keyed(inspect_entries(is)).dom().contains(k) <==> exists|j: int|
            0 <= j < is.len() && is[j].container_name == k,
{
    let e = inspect_entries(is);
    lemma_keyed_dom(e, k);
    if exists|j: int| 0 <= j < is.len() && is[j].container_name == k {
        let j = choose|j: int| 0 <= j < is.len() && is[j].container_name == k;
        assert(e[j].0 == k);
    }
}

/// Whether the usage and inspect records name the same set of containers.
fn same_members(us: &Vec<StatsData>, is: &Vec<InspectData>) -> (r: bool)
    ensures
        r <==> keyed(usage_entries(stats_views(us@))).dom() == keyed(
            inspect_entries(inspect_views(is@)),
        ).dom(),
{
    let ghost uv = stats_views(us@);
    let ghost iv = inspect_views(is@);
    let ghost ud = keyed(usage_entries(uv)).dom();
    let ghost id = keyed(inspect_entries(iv)).dom();
    let mut i: usize = 0;
    while i < us.len()
        invariant
            uv == stats_views(us@),
            iv == inspect_views(is@),
            ud == keyed(usage_entries(uv)).dom(),
            id == keyed(inspect_entries(iv)).dom(),
            i <= us@.len(),
            forall|m: int| 0 <= m < i ==> id.contains(#[trigger] us@[m].container_name@),
        decreases us@.len() - i,
    {
        let found = last_inspect(is, &us[i].container_name);
        proof {
            lemma_inspect_key(iv, us@[i as int].container_name@);
            lemma_usage_key(uv, us@[i as int].container_name@);
            assert(uv[i as int].container_name == us@[i as int].container_name@);
        }
        match found {
            Some(j) => {
                assert(iv[j as int].container_name == is@[j as int].container_name@);
            },
            None => {
                assert(!id.contains(us@[i as int].container_name@)) by {
                    if id.contains(us@[i as int].container_name@) {
                        let j = choose|j: int|
                            0 <= j < iv.len() && iv[j].container_name
                                == us@[i as int].container_name@;
                        assert(is@[j].container_name@ == iv[j].container_name);
                    }
                }
                assert(ud.contains(us@[i as int].container_name@));
                return false;
            },
        }
        i = i + 1;
    }
    let mut i: usize = 0;
    while i < is.len()
        invariant
            uv == stats_views(us@),
            iv == inspect_views(is@),
            ud == keyed(usage_entries(uv)).dom(),
            id == keyed(inspect_entries(iv)).dom(),
            i <= is@.len(),
            forall|m: int| 0 <= m < us@.len() ==> id.contains(#[trigger] us@[m].container_name@),
            forall|m: int| 0 <= m < i ==> ud.contains(#[trigger] is@[m].container_name@),
        decreases is@.len() - i,
    {
        let found = last_usage(us, &is[i].container_name);
        proof {
            lemma_inspect_key(iv, is@[i as int].container_name@);
            lemma_usage_key(uv, is@[i as int].container_name@);
            assert(iv[i as int].container_name == is@[i as int].container_name@);
        }
        match found {
            Some(j) => {
                assert(uv[j as int].container_name == us@[j as int].container_name@);
            },
            None => {
                assert(!ud.contains(is@[i as int].container_name@)) by {
                    if ud.contains(is@[i as int].container_name@) {
                        let j = choose|j: int|
                            0 <= j < uv.len() && uv[j].container_name
                                == is@[i as int].container_name@;
                        assert(us@[j].container_name@ == uv[j].container_name);
                    }
                }
                return false;
            },
        }
        i = i + 1;
    }
    assert(ud =~= id) by {
        assert forall|k: Seq<char>| ud.contains(k) implies id.contains(k) by {
            lemma_usage_key(uv, k);
            let j = choose|j: int| 0 <= j < uv.len() && uv[j].container_name == k;
            assert(us@[j].container_name@ == k);
        }
        assert forall|k: Seq<char>| id.contains(k) implies ud.contains(k) by {
            lemma_inspect_key(iv, k);
            let j = choose|j: int| 0 <= j < iv.len() && iv[j].container_name == k;
            assert(is@[j].container_name@ == k);
        }
    }
    true
}

/// Joins usage and inspect records by container name: one row per container,
/// or `Inconsistent` when the two name different sets of containers.
pub fn correlate(us: &Vec<StatsData>, is: &Vec<InspectData>) -> (r: Result<
    Vec<ContainerStats>,
    StatusError,
>)
    ensures
        match correlation(stats_views(us@), inspect_views(is@)) {
            Some(rows) => r matches Ok(v) && row_views(v@) == rows,
            None => r matches Err(StatusError::Inconsistent),
        },
{
    if !same_members(us, is) {
        return Err(StatusError::Inconsistent);
    }
    let ghost uv = stats_views(us@);
    let ghost iv = inspect_views(is@);
    let ghost e = usage_entries(uv);
    let ghost um = keyed(e);
    let ghost im = keyed(inspect_entries(iv));
    let mut out: Vec<ContainerStats> = Vec::new();
    let mut i: usize = 0;
    while i < us.len()
        invariant
            uv == stats_views(us@),
            iv == inspect_views(is@),
            e == usage_entries(uv),
            um == keyed(e),
            im == keyed(inspect_entries(iv)),
            um.dom() == im.dom(),
            i <= us@.len(),
            row_views(out@) == first_keys(e.take(i as int)).map_values(
                |k: Seq<char>| joined(um[k], im[k]),
            ),
            out@.len() == first_keys(e.take(i as int)).len(),
            forall|j: int|
                0 <= j < out@.len() ==> #[trigger] out@[j].name@ == first_keys(e.take(i as int))[j],
        decreases us@.len() - i,
    {
        let ghost fk = first_keys(e.take(i as int));
        let ghost name = us@[i as int].container_name@;
        assert(e.take(i + 1).drop_last() =~= e.take(i as int));
        assert(e.take(i + 1).last() == (name, uv[i as int]));
        let mut seen = false;
        let mut j: usize = 0;
        while j < out.len()
            invariant
                out@.len() == fk.len(),
                forall|m: int| 0 <= m < out@.len() ==> #[trigger] out@[m].name@ == fk[m],
                name == us@[i as int].container_name@,
                i < us@.len(),
                j <= out@.len(),
                seen <==> exists|m: int| 0 <= m < j && fk[m] == name,
            decreases out@.len() - j,
        {
            if out[j].name == us[i].container_name {
                seen = true;
            }
            j = j + 1;
        }
        if !seen {
            let lu = match last_usage(us, &us[i].container_name) {
                Some(x) => x,
                None => {
                    return Err(StatusError::Inconsistent);
                },
            };
            proof {
                lemma_keyed_last(e, lu as int);
                lemma_usage_key(uv, name);
                lemma_inspect_key(iv, name);
            }
            let li = match last_inspect(is, &us[i].container_name) {
                Some(x) => x,
                None => {
                    proof {
                        let m = choose|m: int| 0 <= m < iv.len() && iv[m].container_name == name;
                        assert(is@[m].container_name@ == name);
                    }
                    return Err(StatusError::Inconsistent);
                },
            };
            proof {
                lemma_keyed_last(inspect_entries(iv), li as int);
            }
            let row = ContainerStats {
                name: us[lu].container_name.clone(),
                status: is[li].status.clone(),
                health: is[li].health.clone(),
                restart_policy: is[li].restart_policy.clone(),
                uptime: is[li].uptime.clone(),
                cpu_usage: us[lu].cpu.clone(),
                memory_usage: us[lu].memory.clone(),
                ports: is[li].ports.clone(),
            };
            assert(row@ == joined(um[name], im[name]));
            let ghost before = out@;
            out.push(row);
            assert(!fk.contains(name));
            assert(first_keys(e.take(i + 1)) == fk.push(name));
            assert(row_views(out@) =~= row_views(before).push(row@));
            assert(fk.push(name).map_values(|k: Seq<char>| joined(um[k], im[k])) =~= fk.map_values(
                |k: Seq<char>| joined(um[k], im[k]),
            ).push(joined(um[name], im[name])));
        } else {
            assert(fk.contains(name));
            assert(first_keys(e.take(i + 1)) == fk);
        }
        i = i + 1;
    }
    assert(e.take(us@.len() as int) =~= e);
    Ok(out)
}

/// The usage records of a sequence of lines, or the first line that is not one.
pub open spec fn usage_records(ls: Seq<Seq<char>>) -> Result<Seq<StatsView>, Seq<char>>
    decreases ls.len(),
{
    if ls.len() == 0 {
        Ok(Seq::empty())
    } else {
        match usage_records(ls.drop_last()) {
            Ok(rs) => match parse_usage(ls.last()) {
                Some(u) => Ok(rs.push(u)),
                None => Err(ls.last()),
            },
            Err(l) => Err(l),
        }
    }
}

/// The inspect records of a sequence of lines, or the first line that is not one.
pub open spec fn inspect_records(ls: Seq<Seq<char>>) -> Result<Seq<InspectView>, Seq<char>>
    decreases ls.len(),
{
    if ls.len() == 0 {
        Ok(Seq::empty())
    } else {
        match inspect_records(ls.drop_last()) {
            Ok(rs) => match parse_inspect(ls.last()) {
                Some(i) => Ok(rs.push(i)),
                None => Err(ls.last()),
            },
            Err(l) => Err(l),
        }
    }
}

proof fn lemma_usage_err_stays(ls: Seq<Seq<char>>, n: int)
    requires
        0 <= n <= ls.len(),
        usage_records(ls.take(n)) is Err,
    ensures
        usage_records(ls) == usage_records(ls.take(n)),
    decreases ls.len() - n,
{
    if n == ls.len() {
        assert(ls.take(n) =~= ls);
    } else {
        assert(ls.take(n + 1).drop_last() =~= ls.take(n));
        lemma_usage_err_stays(ls, n + 1);
    }
}

proof fn lemma_inspect_err_stays(ls: Seq<Seq<char>>, n: int)
    requires
        0 <= n <= ls.len(),
        inspect_records(ls.take(n)) is Err,
    ensures
        inspect_records(ls) == inspect_records(ls.take(n)),
    decreases ls.len() - n,
{
    if n == ls.len() {
        assert(ls.take(n) =~= ls);
    } else {
        assert(ls.take(n + 1).drop_last() =~= ls.take(n));
        lemma_inspect_err_stays(ls, n + 1);
    }
}

/// Parses the lines of the usage snapshot from index `first` on.
fn parse_usage_lines(ls: &Vec<String>, first: usize) -> (r: Result<Vec<StatsData>, StatusError>)
    requires
        first <= ls@.len(),
    ensures
        match usage_records(views(ls@).skip(first as int)) {
            Ok(rs) => r matches Ok(v) && stats_views(v@) == rs,
            Err(l) => r matches Err(StatusError::MalformedUsage(x)) && x@ == l,
        },
{
    let ghost src = views(ls@).skip(first as int);
    let mut out: Vec<StatsData> = Vec::new();
    let mut i: usize = first;
    assert(src.take(0) =~= Seq::<Seq<char>>::empty());
    assert(stats_views(out@) =~= Seq::<StatsView>::empty());
    while i < ls.len()
        invariant
            src == views(ls@).skip(first as int),
            first <= i <= ls@.len(),
            usage_records(src.take(i - first)) == Ok::<Seq<StatsView>, Seq<char>>(
                stats_views(out@),
            ),
        decreases ls@.len() - i,
    {
        let ghost n = i - first;
        assert(src.take(n + 1).drop_last() =~= src.take(n));
        assert(src.take(n + 1).last() == ls@[i as int]@);
        match parse_stats_data(ls[i].as_str()) {
            Ok(d) => {
                let ghost before = out@;
                out.push(d);
                assert(stats_views(out@) =~= stats_views(before).push(d@));
            },
            Err(e) => {
                proof {
                    lemma_usage_err_stays(src, n + 1);
                }
                return Err(e);
            },
        }
        i = i + 1;
    }
    assert(src.take(ls@.len() - first) =~= src);
    Ok(out)
}

/// Parses the lines of the inspect snapshot.
fn parse_inspect_lines(ls: &Vec<String>) -> (r: Result<Vec<InspectData>, StatusError>)
    ensures
        match inspect_records(views(ls@)) {
            Ok(rs) => r matches Ok(v) && inspect_views(v@) == rs,
            Err(l) => r matches Err(StatusError::MalformedInspect(x)) && x@ == l,
        },
{
    let ghost src = views(ls@);
    let mut out: Vec<InspectData> = Vec::new();
    let mut i: usize = 0;
    assert(src.take(0) =~= Seq::<Seq<char>>::empty());
    assert(inspect_views(out@) =~= Seq::<InspectView>::empty());
    while i < ls.len()
        invariant
            src == views(ls@),
            i <= ls@.len(),
            inspect_records(src.take(i as int)) == Ok::<Seq<InspectView>, Seq<char>>(
                inspect_views(out@),
            ),
        decreases ls@.len() - i,
    {
        assert(src.take(i + 1).drop_last() =~= src.take(i as int));
        assert(src.take(i + 1).last() == ls@[i as int]@);
        match parse_inspect_data(ls[i].as_str()) {
            Ok(d) => {
                let ghost before = out@;
                out.push(d);
                assert(inspect_views(out@) =~= inspect_views(before).push(d@));
            },
            Err(e) => {
                proof {
                    lemma_inspect_err_stays(src, i + 1);
                }
                return Err(e);
            },
        }
        i = i + 1;
    }
    assert(src.take(ls@.len() as int) =~= src);
    Ok(out)
}

/// The data lines of the usage snapshot: its lines after the header line.
pub open spec fn usage_lines(text: Seq<char>) -> Seq<Seq<char>> {
    if lines(text).len() > 0 {
        lines(text).skip(1)
    } else {
        Seq::empty()
    }
}

/// What a status query gives for the two snapshots' text: the first malformed
/// usage line, else the first malformed inspect line, else the joined rows,
/// else the inconsistency.
pub open spec fn status_outcome_holds(
    usage_text: Seq<char>,
    inspect_text: Seq<char>,
    r: Result<Vec<ContainerStats>, StatusError>,
) -> bool {
    match usage_records(usage_lines(usage_text)) {
        Err(l) => r matches Err(StatusError::MalformedUsage(x)) && x@ == l,
        Ok(us) => match inspect_records(lines(inspect_text)) {
            Err(l) => r matches Err(StatusError::MalformedInspect(x)) && x@ == l,
            Ok(is) => match correlation(us, is) {
                Some(rows) => r matches Ok(v) && row_views(v@) == rows,
                None => r matches Err(StatusError::Inconsistent),
            },
        },
    }
}

/// Parses the usage snapshot (a header line, then one line per container) and
/// the inspect snapshot (one line per container), and joins them by name.
pub fn correlate_snapshots(usage_output: &str, inspect_output: &str) -> (r: Result<
    Vec<ContainerStats>,
    StatusError,
>)
    ensures
        status_outcome_holds(usage_output@, inspect_output@, r),
{
    let ul = split_lines(usage_output);
    let first: usize = if ul.len() > 0 {
        1
    } else {
        0
    };
    assert(views(ul@).skip(first as int) =~= usage_lines(usage_output@));
    let us = parse_usage_lines(&ul, first)?;
    let il = split_lines(inspect_output);
    let is = parse_inspect_lines(&il)?;
    correlate(&us, &is)
}

/// A usage line made of a name, a CPU share and a memory share, each free of
/// whitespace and separated by runs of whitespace, parses into a record of
/// exactly those fields, the name without its leading slashes: a name that
/// has none is kept exactly.
pub proof fn lemma_usage_round_trip(
    name: Seq<char>,
    gap1: Seq<char>,
    cpu: Seq<char>,
    gap2: Seq<char>,
    memory: Seq<char>,
)
    requires
        no_ws(name),
        no_ws(cpu),
        no_ws(memory),
        cpu.len() > 0,
        memory.len() > 0,
        gap1.len() > 0,
        gap2.len() > 0,
        all_ws(gap1),
        all_ws(gap2),
        strip_slashes(name).len() > 0,
    ensures
        parse_usage(name + gap1 + cpu + gap2 + memory) == Some(
            StatsView { container_name: strip_slashes(name), cpu, memory },
        ),
        name[0] != '/' ==> strip_slashes(name) == name,
{
    let e = Seq::<char>::empty();
    assert(name.len() > 0);
    lemma_tokens_run(e, name);
    assert(e + name =~= name);
    lemma_tokens_gap(name, gap1);
    lemma_tokens_run(name + gap1, cpu);
    lemma_tokens_gap(name + gap1 + cpu, gap2);
    lemma_tokens_run(name + gap1 + cpu + gap2, memory);
    assert(Seq::<Seq<char>>::empty().push(name).push(cpu).push(memory) =~= seq![name, cpu, memory]);
    lemma_trim_no_ws(name);
}

/// An inspect line made of six fields free of commas, joined by commas, parses
/// into a record of those fields trimmed, the name without its leading
/// slashes: a name free of whitespace and slashes at its start is kept exactly.
pub proof fn lemma_inspect_round_trip(fields: Seq<Seq<char>>)
    requires
        fields.len() == 6,
        forall|i: int| 0 <= i < 6 ==> !(#[trigger] fields[i]).contains(','),
        clean_name(fields[0]).len() > 0,
    ensures
        parse_inspect(join_fields(fields, ',')) == Some(
            InspectView {
                container_name: clean_name(fields[0]),
                status: trim(fields[1]),
                restart_policy: trim(fields[2]),
                health: trim(fields[3]),
                uptime: trim(fields[4]),
                ports: trim(fields[5]),
            },
        ),
        no_ws(fields[0]) && fields[0][0] != '/' ==> clean_name(fields[0]) == fields[0],
{
    lemma_split_join(fields, ',');
    if no_ws(fields[0]) && fields[0][0] != '/' {
        lemma_clean_plain_name(fields[0]);
    }
}

/// When the usage and inspect records name the same set of containers, the
/// join succeeds with exactly one row per container, and each row joins the
/// records that the snapshots hold for its name.
pub proof fn lemma_correlation_complete(us: Seq<StatsView>, is: Seq<InspectView>)
    requires
        keyed(usage_entries(us)).dom() == keyed(inspect_entries(is)).dom(),
    ensures
        correlation(us, is) is Some,
        correlation(us, is)->Some_0.len() == keyed(usage_entries(us)).dom().len(),
        forall|k: Seq<char>|
            keyed(usage_entries(us)).dom().contains(k) ==> exists|j: int|
                0 <= j < correlation(us, is)->Some_0.len() && #[trigger] correlation(
                    us,
                    is,
                )->Some_0[j] == joined(
                    keyed(usage_entries(us))[k],
                    keyed(inspect_entries(is))[k],
                ),
        forall|j: int, m: int|
            0 <= j < m < correlation(us, is)->Some_0.len() ==> correlation(us, is)->Some_0[j].name
                != correlation(us, is)->Some_0[m].name,
{
    let e = usage_entries(us);
    let um = keyed(e);
    let im = keyed(inspect_entries(is));
    let fk = first_keys(e);
    let rows = correlation(us, is)->Some_0;
    lemma_first_keys(e);
    lemma_first_keys_len(e);
    assert forall|k: Seq<char>| um.dom().contains(k) implies exists|j: int|
        0 <= j < rows.len() && #[trigger] rows[j] == joined(um[k], im[k]) by {
        assert(fk.contains(k));
        let j = choose|j: int| 0 <= j < fk.len() && fk[j] == k;
        assert(rows[j] == joined(um[k], im[k]));
    }
    assert forall|j: int, m: int| 0 <= j < m < rows.len() implies rows[j].name != rows[m].name by {
        lemma_usage_key(us, fk[j]);
        lemma_usage_key(us, fk[m]);
        assert(fk.contains(fk[j]));
        assert(fk.contains(fk[m]));
        assert(rows[j].name == fk[j]);
        assert(rows[m].name == fk[m]);
    }
}

/// When the usage and inspect records name different sets of containers, the
/// join fails as a whole: no row is produced.
pub proof fn lemma_correlation_rejects_mismatch(us: Seq<StatsView>, is: Seq<InspectView>)
    requires
        keyed(usage_entries(us)).dom() != keyed(inspect_entries(is)).dom(),
    ensures
        correlation(us, is) is None,
{
}

} // verus!
