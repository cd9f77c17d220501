//! The declarative configuration: its types, its defaults and its rules.

use crate::error::DevError;
use crate::graph::{cycle_report, cyclic, ints, texts, ServiceGraph};
use crate::supervisor::ServicePlan;
use crate::text::{
    before_suffix, chars_of, decimal, find_char, is_char, lines, lines_of, number_fault, parse_u64,
    rows, scan, slice_of, strip_suffix, to_string, trim, trim_char, trimmed, trimmed_of,
};
use indexmap::IndexMap;
use std::path::PathBuf;
use std::time::Duration;
use vstd::prelude::*;
use vstd::string::StringExecFns;

verus! {

/// `std::path::PathBuf`, carried through as it is.
#[verifier::external_type_specification]
#[verifier::external_body]
pub struct ExPathBuf(PathBuf);

/// `indexmap::IndexMap`: a map that keeps its entries in the order in which
/// they were put in. What it holds is known through `service_entries`.
#[verifier::external_type_specification]
#[verifier::external_body]
#[verifier::reject_recursive_types(K)]
#[verifier::reject_recursive_types(V)]
#[verifier::reject_recursive_types(S)]
pub struct ExIndexMap<K, V, S>(IndexMap<K, V, S>);

/// The whole configuration file.
#[derive(Debug)]
pub struct DevConfig {
    pub dev: GlobalSettings,
    pub brew: BrewConfig,
    pub service: IndexMap<String, ServiceDef>,
}

/// Packages to install through the package manager.
#[derive(Debug)]
pub struct BrewConfig {
    pub packages: Vec<String>,
}

/// Settings that hold for every service.
#[derive(Debug)]
pub struct GlobalSettings {
    pub proxy_port: u16,
    pub log_level: String,
}

/// One service as the configuration declares it.
#[derive(Debug)]
pub struct ServiceDef {
    pub cmd: String,
    pub dir: Option<PathBuf>,
    /// Port to bind; 0 asks for a free port at start.
    pub port: u16,
    pub subdomain: Option<String>,
    /// The environment, one pair per variable, no variable twice.
    pub env: Vec<(String, String)>,
    /// A file of further variables; those of `env` take precedence.
    pub env_file: Option<PathBuf>,
    pub depends_on: Vec<String>,
    pub watch: Option<WatchConfig>,
    pub health: Option<HealthConfig>,
    /// A disabled service is neither started nor checked.
    pub disabled: bool,
}

/// Which paths to watch and whether a change restarts the service.
#[derive(Debug)]
pub struct WatchConfig {
    pub paths: Vec<PathBuf>,
    pub ignore: Vec<String>,
    pub restart: bool,
}

/// How the health of a service is probed.
#[derive(Debug)]
pub struct HealthConfig {
    pub kind: HealthKind,
    pub path: Option<String>,
    pub interval: Duration,
    pub timeout: Duration,
    pub retries: u32,
}

/// The kind of a health probe.
#[derive(Debug, Clone, Copy, PartialEq, Eq, Structural)]
pub enum HealthKind {
    Http,
    Tcp,
}

/// The port of the proxy where none is configured.
pub fn default_proxy_port() -> (port: u16)
    ensures
        port == 7080,
{
    7080
}

/// The log level where none is configured.
pub fn default_log_level() -> (level: String)
    ensures
        level@ == "info"@,
{
    "info".to_owned()
}

/// The default of a flag that is on unless switched off.
pub fn default_true() -> (on: bool)
    ensures
        on,
{
    true
}

/// The number of failed probes in a row that make a service unhealthy, where
/// none is configured.
pub fn default_retries() -> (retries: u32)
    ensures
        retries == 3,
{
    3
}

impl Default for GlobalSettings {
    fn default() -> (settings: GlobalSettings)
        ensures
            settings.proxy_port == 7080,
            settings.log_level@ == "info"@,
    {
        GlobalSettings { proxy_port: default_proxy_port(), log_level: default_log_level() }
    }
}

impl Default for BrewConfig {
    fn default() -> (brew: BrewConfig)
        ensures
            brew.packages@.len() == 0,
    {
        BrewConfig { packages: Vec::new() }
    }
}

/// The length of a duration in nanoseconds.
pub uninterp spec fn duration_nanos(d: Duration) -> nat;

/// `Duration::from_secs` of the standard library: a duration of this many
/// whole seconds.
pub assume_specification[ Duration::from_secs ](secs: u64) -> (d: Duration)
    ensures
        duration_nanos(d) == secs as nat * 1_000_000_000,
;

/// `Duration::from_millis` of the standard library: a duration of this many
/// milliseconds.
pub assume_specification[ Duration::from_millis ](millis: u64) -> (d: Duration)
    ensures
        duration_nanos(d) == millis as nat * 1_000_000,
;

/// The time between two probes where none is configured: two seconds.
pub fn default_interval() -> (d: Duration)
    ensures
        duration_nanos(d) == 2_000_000_000,
{
    Duration::from_secs(2)
}

/// The time a probe may take where none is configured: one second.
pub fn default_timeout() -> (d: Duration)
    ensures
        duration_nanos(d) == 1_000_000_000,
{
    Duration::from_secs(1)
}

/// The unit that a duration is written in.
#[derive(Clone, Copy, Debug, PartialEq, Eq, Structural)]
pub enum TimeUnit {
    Millis,
    Secs,
}

/// The nanoseconds in one of the unit.
pub open spec fn unit_nanos(unit: TimeUnit) -> nat {
    match unit {
        TimeUnit::Millis => 1_000_000,
        TimeUnit::Secs => 1_000_000_000,
    }
}

/// The unit that `s` ends with and the text before it. `ms` is looked for
/// first, then `s`.
pub open spec fn unit_of(s: Seq<char>) -> Option<(TimeUnit, Seq<char>)> {
    match before_suffix(s, "ms"@) {
        Some(number) => Some((TimeUnit::Millis, number)),
        None => match before_suffix(s, "s"@) {
            Some(number) => Some((TimeUnit::Secs, number)),
            None => None,
        },
    }
}

/// The nanoseconds that `s` writes as a duration: a number of 64 bits, white
/// space around it allowed, followed by `ms` or `s`.
pub open spec fn duration_written(s: Seq<char>) -> Option<nat> {
    match unit_of(s) {
        Some((unit, number)) => match decimal(trimmed(number)) {
            Some(n) if n <= u64::MAX => Some(n * unit_nanos(unit)),
            _ => None,
        },
        None => None,
    }
}

/// What is reported of a text that writes no duration: where the unit is
/// there, what the number lacks; else that the format is unknown.
pub open spec fn duration_fault(s: Seq<char>) -> Seq<char> {
    match unit_of(s) {
        Some((_, number)) => number_fault(trimmed(number)),
        None => "unknown duration format: '"@ + s + "' (use '2s' or '500ms')"@,
    }
}

/// The duration of `number` units, or the fault that came with the number.
pub fn duration_of(number: Result<u64, String>, unit: TimeUnit) -> (r: Result<Duration, String>)
    ensures
        match (number, r) {
            (Ok(n), Ok(d)) => duration_nanos(d) == n as nat * unit_nanos(unit),
            (Err(fault), Err(e)) => e == fault,
            _ => false,
        },
{
    match number {
        Ok(n) => match unit {
            TimeUnit::Millis => Ok(Duration::from_millis(n)),
            TimeUnit::Secs => Ok(Duration::from_secs(n)),
        },
        Err(fault) => Err(fault),
    }
}

/// Reads a duration such as `2s` or `500ms`.
pub fn parse_duration(s: &str) -> (r: Result<Duration, String>)
    ensures
        match r {
            Ok(d) => duration_written(s@) == Some(duration_nanos(d)),
            Err(e) => duration_written(s@) is None && e@ == duration_fault(s@),
        },
{
    let chars = chars_of(s);
    let millis = chars_of("ms");
    let secs = chars_of("s");
    match strip_suffix(&chars, &millis) {
        Some(number) => {
            let digits = to_string(&trim(&number));
            duration_of(parse_u64(digits.as_str()), TimeUnit::Millis)
        },
        None => match strip_suffix(&chars, &secs) {
            Some(number) => {
                let digits = to_string(&trim(&number));
                duration_of(parse_u64(digits.as_str()), TimeUnit::Secs)
            },
            None => Err(
                "unknown duration format: '".to_owned().concat(s).concat(
                    "' (use '2s' or '500ms')",
                ),
            ),
        },
    }
}

/// The names and the services that the map holds, in the order in which they
/// were put in.
pub uninterp spec fn service_entries(m: IndexMap<String, ServiceDef>) -> Seq<(Seq<char>, ServiceDef)>;

/// `IndexMap::len`: the number of entries.
#[verifier::external_body]
fn service_count(m: &IndexMap<String, ServiceDef>) -> (n: usize)
    ensures
        n == service_entries(*m).len(),
{
    m.len()
}

/// `IndexMap::get_index`: the entry at a position in insertion order, or
/// nothing where the position is behind the last entry. The map holds no
/// key twice, so no other entry has the name that is returned.
#[verifier::external_body]
fn service_at<'a>(m: &'a IndexMap<String, ServiceDef>, i: usize) -> (r: Option<
    (&'a String, &'a ServiceDef),
>)
    ensures
        match r {
            Some((name, def)) => {
                &&& i < service_entries(*m).len()
                &&& name@ == service_entries(*m)[i as int].0
                &&& *def == service_entries(*m)[i as int].1
                &&& forall|j: int|
                    0 <= j < service_entries(*m).len() && j != i ==> (#[trigger] service_entries(
                        *m,
                    )[j]).0 != name@
            },
            None => i >= service_entries(*m).len(),
        },
{
    m.get_index(i)
}

/// `IndexMap::get`: the service stored under a name, or nothing where the
/// map holds no such name. The map holds no name twice, so what is returned
/// is what every entry of that name holds.
#[verifier::external_body]
fn service_named<'a>(m: &'a IndexMap<String, ServiceDef>, name: &str) -> (r: Option<&'a ServiceDef>)
    ensures
        match r {
            Some(def) => {
                &&& exists|i: int|
                    0 <= i < service_entries(*m).len() && (#[trigger] service_entries(*m)[i]).0
                        == name@
                &&& forall|i: int|
                    0 <= i < service_entries(*m).len() && (#[trigger] service_entries(*m)[i]).0
                        == name@ ==> service_entries(*m)[i].1 == *def
            },
            None => forall|i: int|
                0 <= i < service_entries(*m).len() ==> (#[trigger] service_entries(*m)[i]).0
                    != name@,
        },
{
    m.get(name)
}

/// The service takes part in the port check: it is enabled and declares a
/// port.
pub open spec fn claims_port(e: (Seq<char>, ServiceDef)) -> bool {
    !e.1.disabled && e.1.port != 0
}

/// Entries `i` and `j`, `i` first, claim the same port.
pub open spec fn port_clash(entries: Seq<(Seq<char>, ServiceDef)>, i: int, j: int) -> bool {
    &&& 0 <= i < j < entries.len()
    &&& claims_port(entries[i])
    &&& claims_port(entries[j])
    &&& entries[i].1.port == entries[j].1.port
}

/// No two entries claim the same port.
pub open spec fn ports_free(entries: Seq<(Seq<char>, ServiceDef)>) -> bool {
    forall|i: int, j: int| !port_clash(entries, i, j)
}

/// Entry `j` is the first that claims a port already claimed, and `i` is the
/// one that claimed it.
pub open spec fn first_clash(entries: Seq<(Seq<char>, ServiceDef)>, i: int, j: int) -> bool {
    &&& port_clash(entries, i, j)
    &&& forall|a: int, b: int| port_clash(entries, a, b) ==> j <= b
}

/// An enabled service is called `name`.
pub open spec fn enabled_service(entries: Seq<(Seq<char>, ServiceDef)>, name: Seq<char>) -> bool {
    exists|i: int| 0 <= i < entries.len() && (#[trigger] entries[i]).0 == name && !entries[i].1.disabled
}

/// Dependency `k` of the enabled entry `i` names no enabled service.
pub open spec fn dangling(entries: Seq<(Seq<char>, ServiceDef)>, i: int, k: int) -> bool {
    &&& 0 <= i < entries.len()
    &&& !entries[i].1.disabled
    &&& 0 <= k < entries[i].1.depends_on@.len()
    &&& !enabled_service(entries, entries[i].1.depends_on@[k]@)
}

/// Every dependency of every enabled service names an enabled service.
pub open spec fn dependencies_known(entries: Seq<(Seq<char>, ServiceDef)>) -> bool {
    forall|i: int, k: int| !dangling(entries, i, k)
}

/// Dependency `k` of entry `i` is the first dangling one.
pub open spec fn first_dangling(entries: Seq<(Seq<char>, ServiceDef)>, i: int, k: int) -> bool {
    &&& dangling(entries, i, k)
    &&& forall|a: int, b: int| dangling(entries, a, b) ==> i < a || (i == a && k <= b)
}

/// What is reported of a dangling dependency.
pub open spec fn dangling_message(service: Seq<char>, dependency: Seq<char>) -> Seq<char> {
    "service '"@ + service + "' depends_on unknown or disabled service '"@ + dependency + "'"@
}

/// The names of the entries, in order.
pub open spec fn entry_names(entries: Seq<(Seq<char>, ServiceDef)>) -> Seq<Seq<char>> {
    Seq::new(entries.len(), |i: int| entries[i].0)
}

/// The dependencies of the entries by index: an enabled service depends on
/// the entries that its dependencies name, a disabled one on nothing.
pub open spec fn entry_graph(entries: Seq<(Seq<char>, ServiceDef)>) -> Seq<Seq<int>> {
    Seq::new(
        entries.len(),
        |i: int|
            if entries[i].1.disabled {
                Seq::empty()
            } else {
                Seq::new(
                    entries[i].1.depends_on@.len(),
                    |k: int| entry_names(entries).index_of(entries[i].1.depends_on@[k]@),
                )
            },
    )
}

/// What `validate` returns for these entries: the first port claimed twice,
/// else the first dangling dependency, else the services that a cycle of
/// dependencies keeps from starting, else nothing.
pub open spec fn validated(entries: Seq<(Seq<char>, ServiceDef)>, r: Result<(), DevError>) -> bool {
    match r {
        Ok(_) => ports_free(entries) && dependencies_known(entries) && !cyclic(
            entry_graph(entries),
        ),
        Err(DevError::Cycle { services }) => ports_free(entries) && dependencies_known(entries)
            && cyclic(entry_graph(entries)) && cycle_report(
            entry_graph(entries),
            entry_names(entries),
            texts(services@),
        ),
        Err(DevError::PortConflict { a, b, port }) => exists|i: int, j: int|
            #[trigger] first_clash(entries, i, j) && a@ == entries[i].0 && b@ == entries[j].0
                && port == entries[j].1.port,
        Err(DevError::Config(msg)) => ports_free(entries) && exists|i: int, k: int|
            #[trigger] first_dangling(entries, i, k) && msg@ == dangling_message(
                entries[i].0,
                entries[i].1.depends_on@[k]@,
            ),
    }
}

impl DevConfig {
    /// The position of the entry called `name`.
    fn position_of(&self, name: &String) -> (r: Option<usize>)
        ensures
            match r {
                Some(d) => d < service_entries(self.service).len() && entry_names(
                    service_entries(self.service),
                ).index_of(name@) == d && service_entries(self.service)[d as int].0 == name@,
                None => forall|j: int|
                    0 <= j < service_entries(self.service).len() ==> (#[trigger] service_entries(
                        self.service,
                    )[j]).0 != name@,
            },
    {
        let n = service_count(&self.service);
        let ghost entries = service_entries(self.service);
        let mut d: usize = 0;
        while d < n
            invariant
                entries == service_entries(self.service),
                n == entries.len(),
                d <= n,
                forall|j: int| 0 <= j < d ==> (#[trigger] entries[j]).0 != name@,
            decreases n - d,
        {
            if let Some((found, _)) = service_at(&self.service, d) {
                if *found == *name {
                    proof {
                        let all = entry_names(entries);
                        assert(all[d as int] == name@);
                        assert(all.contains(name@));
                        let at = all.index_of(name@);
                        assert(all[at] == name@);
                        assert(entries[at].0 == name@);
                    }
                    return Some(d);
                }
            }
            d += 1;
        }
        None
    }

    /// The dependencies of the services by index.
    fn dependency_graph(&self) -> (g: ServiceGraph)
        requires
            dependencies_known(service_entries(self.service)),
        ensures
            g.wf(),
            g@.names == entry_names(service_entries(self.service)),
            g@.deps == entry_graph(service_entries(self.service)),
    {
        let n = service_count(&self.service);
        let ghost entries = service_entries(self.service);
        let mut names: Vec<String> = Vec::new();
        let mut deps: Vec<Vec<usize>> = Vec::new();
        let mut i: usize = 0;
        while i < n
            invariant
                entries == service_entries(self.service),
                dependencies_known(entries),
                n == entries.len(),
                i <= n,
                names@.len() == i,
                deps@.len() == i,
                forall|a: int| 0 <= a < i ==> (#[trigger] names@[a])@ == entries[a].0,
                forall|a: int|
                    0 <= a < i ==> ints((#[trigger] deps@[a])@) == entry_graph(entries)[a],
                forall|a: int, b: int|
                    0 <= a < i && 0 <= b < deps@[a]@.len() ==> (#[trigger] deps@[a]@[b]) < n,
                forall|a: int, b: int|
                    0 <= a < i && 0 <= b < n && a != b ==> (#[trigger] entries[a]).0
                        != (#[trigger] entries[b]).0,
            decreases n - i,
        {
            let mut row: Vec<usize> = Vec::new();
            if let Some((name, def)) = service_at(&self.service, i) {
                if !def.disabled {
                    let mut k: usize = 0;
                    while k < def.depends_on.len()
                        invariant
                            entries == service_entries(self.service),
                            dependencies_known(entries),
                            n == entries.len(),
                            i < n,
                            *def == entries[i as int].1,
                            !def.disabled,
                            k <= def.depends_on@.len(),
                            row@.len() == k,
                            forall|b: int|
                                0 <= b < k ==> (#[trigger] row@[b]) < n && row@[b] == entry_names(
                                    entries,
                                ).index_of(def.depends_on@[b]@),
                        decreases def.depends_on@.len() - k,
                    {
                        match self.position_of(&def.depends_on[k]) {
                            Some(d) => {
                                row.push(d);
                            },
                            None => {
                                proof {
                                    assert(!dangling(entries, i as int, k as int));
                                    let x = choose|x: int|
                                        0 <= x < entries.len() && (#[trigger] entries[x]).0
                                            == def.depends_on@[k as int]@ && !entries[x].1.disabled;
                                    assert(entries[x].0 == def.depends_on@[k as int]@);
                                }
                            },
                        }
                        k += 1;
                    }
                }
                proof {
                    assert(ints(row@) =~= entry_graph(entries)[i as int]);
                }
                names.push(name.clone());
                deps.push(row);
            }
            i += 1;
        }
        let g = ServiceGraph { names, deps };
        proof {
            assert(g@.names =~= entry_names(entries));
            assert(g@.deps =~= entry_graph(entries));
            assert forall|a: int, b: int|
                0 <= a < g@.deps.len() && 0 <= b < g@.deps[a].len() implies 0 <= #[trigger] g@.deps[a][b]
                < g@.deps.len() by {
                assert(deps@[a]@[b] < n);
            }
            assert forall|a: int, b: int|
                0 <= a < g@.names.len() && 0 <= b < g@.names.len() && a != b implies g@.names[a]
                != g@.names[b] by {
                assert(entries[a].0 != entries[b].0);
            }
        }
        g
    }

    /// Checks the rules that span services. Two enabled services may not
    /// declare the same port, port 0 apart; every dependency of an enabled
    /// service must name an enabled service; and no service may depend,
    /// directly or through others, on itself.
    pub fn validate(&self) -> (r: Result<(), DevError>)
        ensures
            validated(service_entries(self.service), r),
    {
        let n = service_count(&self.service);
        let ghost entries = service_entries(self.service);
        let mut j: usize = 0;
        while j < n
            invariant
                entries == service_entries(self.service),
                n == entries.len(),
                j <= n,
                forall|a: int, b: int| port_clash(entries, a, b) ==> j <= b,
            decreases n - j,
        {
            if let Some((name, def)) = service_at(&self.service, j) {
                if !def.disabled && def.port != 0 {
                    let mut i: usize = 0;
                    while i < j
                        invariant
                            entries == service_entries(self.service),
                            n == entries.len(),
                            i <= j < n,
                            name@ == entries[j as int].0,
                            *def == entries[j as int].1,
                            !def.disabled && def.port != 0,
                            forall|a: int, b: int| port_clash(entries, a, b) ==> j <= b,
                            forall|a: int| 0 <= a < i ==> !port_clash(entries, a, j as int),
                        decreases j - i,
                    {
                        if let Some((other, held)) = service_at(&self.service, i) {
                            if !held.disabled && held.port == def.port {
                                proof {
                                    assert(first_clash(entries, i as int, j as int));
                                }
                                return Err(
                                    DevError::PortConflict {
                                        a: other.clone(),
                                        b: name.clone(),
                                        port: def.port,
                                    },
                                );
                            }
                        }
                        i += 1;
                    }
                }
            }
            j += 1;
        }
        assert(ports_free(entries));
        let mut i: usize = 0;
        while i < n
            invariant
                entries == service_entries(self.service),
                n == entries.len(),
                i <= n,
                ports_free(entries),
                forall|a: int, b: int| 0 <= a < i ==> !dangling(entries, a, b),
            decreases n - i,
        {
            if let Some((name, def)) = service_at(&self.service, i) {
                if !def.disabled {
                    let mut k: usize = 0;
                    while k < def.depends_on.len()
                        invariant
                            entries == service_entries(self.service),
                                        n == entries.len(),
                            i < n,
                            name@ == entries[i as int].0,
                            *def == entries[i as int].1,
                            !def.disabled,
                            k <= def.depends_on@.len(),
                            ports_free(entries),
                            forall|a: int, b: int| 0 <= a < i ==> !dangling(entries, a, b),
                            forall|b: int| 0 <= b < k ==> !dangling(entries, i as int, b),
                        decreases def.depends_on@.len() - k,
                    {
                        let dep = &def.depends_on[k];
                        let known = match service_named(&self.service, dep.as_str()) {
                            Some(found) => !found.disabled,
                            None => false,
                        };
                        if !known {
                            proof {
                                assert(!enabled_service(entries, dep@)) by {
                                    if enabled_service(entries, dep@) {
                                        let x = choose|x: int|
                                            0 <= x < entries.len() && (#[trigger] entries[x]).0
                                                == dep@ && !entries[x].1.disabled;
                                        assert(entries[x].0 == dep@);
                                    }
                                }
                                assert(first_dangling(entries, i as int, k as int));
                            }
                            let msg = "service '".to_owned().concat(name.as_str()).concat(
                                "' depends_on unknown or disabled service '",
                            ).concat(dep.as_str()).concat("'");
                            return Err(DevError::Config(msg));
                        }
                        proof {
                            let x = choose|x: int|
                                0 <= x < entries.len() && (#[trigger] entries[x]).0 == dep@;
                            assert(!entries[x].1.disabled);
                        }
                        k += 1;
                    }
                }
            }
            i += 1;
        }
        assert(dependencies_known(entries));
        let graph = self.dependency_graph();
        match graph.order() {
            Ok(_) => Ok(()),
            Err(cycle) => Err(DevError::Cycle { services: cycle.services }),
        }
    }

    /// What the supervisor needs to know of the enabled services, in the
    /// order of the configuration. Disabled services are left out.
    pub fn plans(&self) -> (plans: Vec<ServicePlan>)
        ensures
            planned(plans@) == enabled_plans(service_entries(self.service)),
    {
        let n = service_count(&self.service);
        let ghost entries = service_entries(self.service);
        let mut plans: Vec<ServicePlan> = Vec::new();
        let mut i: usize = 0;
        while i < n
            invariant
                entries == service_entries(self.service),
                n == entries.len(),
                i <= n,
                planned(plans@) == enabled_plans(entries.take(i as int)),
            decreases n - i,
        {
            let ghost before = planned(plans@);
            proof {
                assert(entries.take(i + 1).drop_last() =~= entries.take(i as int));
            }
            if let Some((name, def)) = service_at(&self.service, i) {
                if !def.disabled {
                    let plan = def.plan(name.as_str());
                    plans.push(plan);
                    assert(planned(plans@) =~= before.push(plan_of(entries[i as int])));
                }
            }
            i += 1;
        }
        assert(entries.take(n as int) =~= entries);
        plans
    }
}

/// What a plan holds.
pub struct PlanModel {
    pub name: Seq<char>,
    pub depends_on: Seq<Seq<char>>,
    pub port: u16,
    pub probe: Option<HealthKind>,
    pub retries: u32,
    pub restart_on_change: bool,
}

/// What the plans hold, in order.
pub open spec fn planned(plans: Seq<ServicePlan>) -> Seq<PlanModel> {
    Seq::new(
        plans.len(),
        |i: int|
            PlanModel {
                name: plans[i].name@,
                depends_on: texts(plans[i].depends_on@),
                port: plans[i].port,
                probe: plans[i].probe,
                retries: plans[i].retries,
                restart_on_change: plans[i].restart_on_change,
            },
    )
}

/// The plan of a service. Without a health section there is no probe, and
/// the retries are the default; without a watch section nothing restarts it.
pub open spec fn plan_of(e: (Seq<char>, ServiceDef)) -> PlanModel {
    PlanModel {
        name: e.0,
        depends_on: texts(e.1.depends_on@),
        port: e.1.port,
        probe: match e.1.health {
            Some(health) => Some(health.kind),
            None => None,
        },
        retries: match e.1.health {
            Some(health) => health.retries,
            None => 3,
        },
        restart_on_change: match e.1.watch {
            Some(watch) => watch.restart,
            None => false,
        },
    }
}

/// The plans of the enabled entries, in order.
pub open spec fn enabled_plans(entries: Seq<(Seq<char>, ServiceDef)>) -> Seq<PlanModel>
    decreases entries.len(),
{
    if entries.len() == 0 {
        Seq::empty()
    } else if entries.last().1.disabled {
        enabled_plans(entries.drop_last())
    } else {
        enabled_plans(entries.drop_last()).push(plan_of(entries.last()))
    }
}

impl ServiceDef {
    /// What the supervisor needs to know of this service.
    pub fn plan(&self, name: &str) -> (plan: ServicePlan)
        ensures
            planned(seq![plan])[0] == plan_of((name@, *self)),
    {
        let (probe, retries) = match &self.health {
            Some(health) => (Some(health.kind), health.retries),
            None => (None, default_retries()),
        };
        let restart_on_change = match &self.watch {
            Some(watch) => watch.restart,
            None => false,
        };
        ServicePlan {
            name: name.to_owned(),
            depends_on: crate::supervisor::copy_names(&self.depends_on),
            port: self.port,
            probe,
            retries,
            restart_on_change,
        }
    }
}

/// The variables that a vector holds, in order.
pub open spec fn pairs(env: Seq<(String, String)>) -> Seq<(Seq<char>, Seq<char>)> {
    Seq::new(env.len(), |i: int| (env[i].0@, env[i].1@))
}

/// No variable is set twice.
pub open spec fn no_variable_twice(env: Seq<(Seq<char>, Seq<char>)>) -> bool {
    forall|i: int, j: int|
        0 <= i < env.len() && 0 <= j < env.len() && i != j ==> (#[trigger] env[i]).0
            != (#[trigger] env[j]).0
}

impl ServiceDef {
    /// The environment sets no variable twice.
    pub open spec fn wf(&self) -> bool {
        no_variable_twice(pairs(self.env@))
    }
}

/// The variable that a line of an environment file sets. Blank lines, lines
/// that begin with `#` and lines without `=` set none. Name and value are
/// trimmed; quotes around the value, double ones first, are taken off.
pub open spec fn env_pair(line: Seq<char>) -> Option<(Seq<char>, Seq<char>)> {
    let text = trimmed(line);
    let at = scan(text, 0, is_char('='));
    if text.len() == 0 || text[0] == '#' || at < 0 || at >= text.len() {
        None
    } else {
        Some(
            (
                trimmed(text.take(at)),
                trimmed_of(trimmed_of(trimmed(text.skip(at + 1)), '"'), '\''),
            ),
        )
    }
}

/// Whether the environment sets `key`.
pub open spec fn sets(env: Seq<(Seq<char>, Seq<char>)>, key: Seq<char>) -> bool {
    exists|i: int| 0 <= i < env.len() && (#[trigger] env[i]).0 == key
}

/// The environment with a default: the variable is added unless it is set.
pub open spec fn with_default(
    env: Seq<(Seq<char>, Seq<char>)>,
    pair: (Seq<char>, Seq<char>),
) -> Seq<(Seq<char>, Seq<char>)> {
    if sets(env, pair.0) {
        env
    } else {
        env.push(pair)
    }
}

/// The environment with the variables of the lines as defaults, first line
/// first.
pub open spec fn with_defaults(
    env: Seq<(Seq<char>, Seq<char>)>,
    lines: Seq<Seq<char>>,
) -> Seq<(Seq<char>, Seq<char>)>
    decreases lines.len(),
{
    if lines.len() == 0 {
        env
    } else {
        let before = with_defaults(env, lines.drop_last());
        match env_pair(lines.last()) {
            Some(pair) => with_default(before, pair),
            None => before,
        }
    }
}

/// Defaults never set a variable a second time.
pub proof fn lemma_defaults_set_nothing_twice(
    env: Seq<(Seq<char>, Seq<char>)>,
    lines: Seq<Seq<char>>,
)
    requires
        no_variable_twice(env),
    ensures
        no_variable_twice(with_defaults(env, lines)),
    decreases lines.len(),
{
    if lines.len() > 0 {
        lemma_defaults_set_nothing_twice(env, lines.drop_last());
        let before = with_defaults(env, lines.drop_last());
        match env_pair(lines.last()) {
            Some(pair) => {
                if !sets(before, pair.0) {
                    let after = before.push(pair);
                    assert forall|i: int, j: int|
                        0 <= i < after.len() && 0 <= j < after.len() && i != j implies (
                    #[trigger] after[i]).0 != (#[trigger] after[j]).0 by {
                        if i < before.len() && j < before.len() {
                            assert(before[i].0 != before[j].0);
                        } else if i < before.len() {
                            assert(before[i].0 != pair.0);
                        } else {
                            assert(before[j].0 != pair.0);
                        }
                    }
                }
            },
            None => {},
        }
    }
}

/// The variable that a line of an environment file sets.
pub fn parse_env_line(line: &Vec<char>) -> (r: Option<(String, String)>)
    ensures
        match r {
            Some(pair) => env_pair(line@) == Some((pair.0@, pair.1@)),
            None => env_pair(line@) is None,
        },
{
    let text = trim(line);
    if text.len() == 0 || text[0] == '#' {
        return None;
    }
    let at = find_char(&text, 0, '=');
    if at >= text.len() {
        return None;
    }
    let key = trim(&slice_of(&text, 0, at));
    let value = trim_char(&trim_char(&trim(&slice_of(&text, at + 1, text.len())), '"'), '\'');
    proof {
        assert(text@.subrange(0, at as int) =~= text@.take(at as int));
        assert(text@.subrange(at + 1, text@.len() as int) =~= text@.skip(at + 1));
    }
    Some((to_string(&key), to_string(&value)))
}

/// Whether the environment sets `key`.
pub fn env_sets(env: &Vec<(String, String)>, key: &String) -> (r: bool)
    ensures
        r == sets(pairs(env@), key@),
{
    let mut i: usize = 0;
    while i < env.len()
        invariant
            i <= env@.len(),
            forall|a: int| 0 <= a < i ==> (#[trigger] pairs(env@)[a]).0 != key@,
        decreases env@.len() - i,
    {
        if env[i].0 == *key {
            assert(pairs(env@)[i as int].0 == key@);
            return true;
        }
        i += 1;
    }
    false
}

/// Takes the variables of an environment file in as defaults: a variable
/// that is set already keeps its value, and of two lines that set the same
/// variable the first counts.
pub fn merge_env_text(env: &mut Vec<(String, String)>, contents: &str)
    ensures
        pairs(final(env)@) == with_defaults(pairs(old(env)@), lines_of(contents@)),
        no_variable_twice(pairs(old(env)@)) ==> no_variable_twice(pairs(final(env)@)),
{
    proof {
        if no_variable_twice(pairs(env@)) {
            lemma_defaults_set_nothing_twice(pairs(env@), lines_of(contents@));
        }
    }
    let chars = chars_of(contents);
    let all = lines(&chars);
    let ghost texts = rows(all@);
    let ghost start = pairs(env@);
    let mut i: usize = 0;
    while i < all.len()
        invariant
            texts == rows(all@),
            texts == lines_of(contents@),
            i <= all@.len(),
            pairs(env@) == with_defaults(start, texts.take(i as int)),
        decreases all@.len() - i,
    {
        let ghost before = pairs(env@);
        proof {
            assert(texts.take(i + 1).drop_last() =~= texts.take(i as int));
            assert(texts.take(i + 1).last() == all@[i as int]@);
        }
        match parse_env_line(&all[i]) {
            Some(pair) => {
                if !env_sets(env, &pair.0) {
                    let ghost added = (pair.0@, pair.1@);
                    env.push(pair);
                    assert(pairs(env@) =~= before.push(added));
                }
            },
            None => {},
        }
        i += 1;
    }
    assert(texts.take(all@.len() as int) =~= texts);
}

} // verus!
