//! The local cluster: what its tools print, and what is to be done to start
//! it.
//!
//! Running the tools is the caller's part; this module reads their output and
//! decides.

use crate::graph::texts;
use crate::json::{get, held, items, items_in, member, names, names_in, text, text_in, Json};
use crate::sorting::{ordered, sort};
use crate::text::{after_prefix, decimal_text, number_text, same_text, strip_prefix};
use crate::text::{
    chars_of, contains, holds, lines, lines_of, parse_u32, replace_all, replaced, rows,
    small_number, stands_at, starts_with, to_string, to_strings, trim, trimmed, words, words_of,
};
use vstd::prelude::*;
use vstd::string::StringExecFns;

verus! {

/// Whether the cluster is installed and runs.
pub struct KubeStatus {
    pub installed: bool,
    pub running: bool,
    /// `running`, `stopped` or `not_installed`.
    pub state: String,
}

/// What the cluster holds.
pub struct KubeResources {
    pub namespaces: Vec<String>,
    pub nodes: Vec<KubeNode>,
    pub pods: Vec<KubePod>,
}

/// One node of the cluster.
pub struct KubeNode {
    pub name: String,
    pub status: String,
    pub roles: String,
    pub version: String,
}

/// One pod of the cluster.
pub struct KubePod {
    pub name: String,
    pub namespace: String,
    pub status: String,
    pub ready: String,
    pub restarts: u32,
    pub age: String,
    pub node: String,
}

/// What a status holds.
pub struct StatusModel {
    pub installed: bool,
    pub running: bool,
    pub state: Seq<char>,
}

impl View for KubeStatus {
    type V = StatusModel;

    open spec fn view(&self) -> StatusModel {
        StatusModel { installed: self.installed, running: self.running, state: self.state@ }
    }
}

/// What a pod holds.
pub struct PodModel {
    pub name: Seq<char>,
    pub namespace: Seq<char>,
    pub status: Seq<char>,
    pub ready: Seq<char>,
    pub restarts: u32,
    pub age: Seq<char>,
    pub node: Seq<char>,
}

impl View for KubePod {
    type V = PodModel;

    open spec fn view(&self) -> PodModel {
        PodModel {
            name: self.name@,
            namespace: self.namespace@,
            status: self.status@,
            ready: self.ready@,
            restarts: self.restarts,
            age: self.age@,
            node: self.node@,
        }
    }
}

/// What the listing of the virtual machines says of the cluster's machine.
#[derive(Clone, Copy, Debug, PartialEq, Eq, Structural)]
pub enum VmState {
    Running,
    Stopped,
    /// The machine is listed, neither as running nor as stopped.
    Exists,
    /// The machine is not listed.
    Missing,
}

/// The status of a cluster that runs.
pub open spec fn status_running() -> StatusModel {
    StatusModel { installed: true, running: true, state: "running"@ }
}

/// The status of a cluster that is installed and does not run.
pub open spec fn status_stopped() -> StatusModel {
    StatusModel { installed: true, running: false, state: "stopped"@ }
}

/// The status where there is no cluster.
pub open spec fn status_missing() -> StatusModel {
    StatusModel { installed: false, running: false, state: "not_installed"@ }
}

/// The position of the first line that begins with `k3s` and a space, or
/// the number of lines.
pub open spec fn vm_line(lines: Seq<Seq<char>>) -> int
    decreases lines.len(),
{
    if lines.len() == 0 {
        0
    } else if vm_line(lines.drop_last()) < lines.len() - 1 {
        vm_line(lines.drop_last())
    } else if stands_at(lines.last(), "k3s "@, 0) {
        lines.len() - 1
    } else {
        lines.len() as int
    }
}

/// What a line of the machine says of its state.
pub open spec fn line_state(line: Seq<char>) -> VmState {
    if holds(line, "Running"@) {
        VmState::Running
    } else if holds(line, "Stopped"@) {
        VmState::Stopped
    } else {
        VmState::Exists
    }
}

/// What the listing says of the cluster's machine: the state of the first
/// line that begins with its name.
pub open spec fn listed_state(listing: Seq<char>) -> VmState {
    let all = lines_of(listing);
    if 0 <= vm_line(all) < all.len() {
        line_state(all[vm_line(all)])
    } else {
        VmState::Missing
    }
}

/// The first line that begins with the machine's name is in range where it
/// is found, and no line before it begins so.
pub proof fn lemma_vm_line(lines: Seq<Seq<char>>)
    ensures
        0 <= vm_line(lines) <= lines.len(),
        vm_line(lines) < lines.len() ==> stands_at(lines[vm_line(lines)], "k3s "@, 0),
        forall|i: int| 0 <= i < vm_line(lines) ==> !stands_at(#[trigger] lines[i], "k3s "@, 0),
    decreases lines.len(),
{
    if lines.len() > 0 {
        lemma_vm_line(lines.drop_last());
        let before = lines.drop_last();
        assert forall|i: int| 0 <= i < vm_line(lines) implies !stands_at(
            #[trigger] lines[i],
            "k3s "@,
            0,
        ) by {
            if i < before.len() {
                assert(before[i] == lines[i]);
            }
        }
    }
}

/// The line at `at` is the first that begins with the machine's name, or
/// there is none and `at` is the number of lines.
pub proof fn lemma_vm_line_is(lines: Seq<Seq<char>>, at: int)
    requires
        0 <= at <= lines.len(),
        forall|i: int| 0 <= i < at ==> !stands_at(#[trigger] lines[i], "k3s "@, 0),
        at < lines.len() ==> stands_at(lines[at], "k3s "@, 0),
    ensures
        vm_line(lines) == at,
{
    lemma_vm_line(lines);
    let found = vm_line(lines);
    if found < at {
        assert(!stands_at(lines[found], "k3s "@, 0));
    } else if found > at {
        assert(!stands_at(lines[at], "k3s "@, 0));
    }
}

/// What the listing of the virtual machines says of the cluster's machine.
pub fn vm_state(listing: &str) -> (state: VmState)
    ensures
        state == listed_state(listing@),
{
    let all = lines(&chars_of(listing));
    let name = chars_of("k3s ");
    let running = chars_of("Running");
    let stopped = chars_of("Stopped");
    let mut i: usize = 0;
    while i < all.len()
        invariant
            rows(all@) == lines_of(listing@),
            name@ == "k3s "@,
            running@ == "Running"@,
            stopped@ == "Stopped"@,
            i <= all@.len(),
            forall|a: int| 0 <= a < i ==> !stands_at(#[trigger] rows(all@)[a], "k3s "@, 0),
        decreases all@.len() - i,
    {
        assert(rows(all@)[i as int] == all@[i as int]@);
        if starts_with(&all[i], &name) {
            proof {
                lemma_vm_line_is(rows(all@), i as int);
            }
            if contains(&all[i], &running) {
                return VmState::Running;
            } else if contains(&all[i], &stopped) {
                return VmState::Stopped;
            } else {
                return VmState::Exists;
            }
        }
        i += 1;
    }
    proof {
        lemma_vm_line_is(rows(all@), all@.len() as int);
    }
    VmState::Missing
}

/// The status for the given parts.
fn status(installed: bool, running: bool, state: &str) -> (s: KubeStatus)
    ensures
        s@ == (StatusModel { installed, running, state: state@ }),
{
    KubeStatus { installed, running, state: state.to_owned() }
}

/// The status of a cluster in a virtual machine. Without the machine tool, or
/// where its listing could not be had, there is no cluster. A machine that
/// runs is a running cluster; one that is listed otherwise is a stopped one.
pub fn status_of_vm(tool_found: bool, listing: Option<&str>) -> (s: KubeStatus)
    ensures
        s@ == match listing {
            Some(text) if tool_found => match listed_state(text@) {
                VmState::Running => status_running(),
                VmState::Missing => status_missing(),
                _ => status_stopped(),
            },
            _ => status_missing(),
        },
{
    if !tool_found {
        return status(false, false, "not_installed");
    }
    match listing {
        None => status(false, false, "not_installed"),
        Some(text) => match vm_state(text) {
            VmState::Running => status(true, true, "running"),
            VmState::Missing => status(false, false, "not_installed"),
            _ => status(true, false, "stopped"),
        },
    }
}

/// The status of a cluster that runs as a service of the machine. Without
/// the cluster's tool there is no cluster; else it runs exactly when the
/// service is known to be active.
pub fn status_of_service(tool_found: bool, active: Option<bool>) -> (s: KubeStatus)
    ensures
        s@ == if !tool_found {
            status_missing()
        } else if active == Some(true) {
            status_running()
        } else {
            status_stopped()
        },
{
    if !tool_found {
        status(false, false, "not_installed")
    } else {
        match active {
            Some(true) => status(true, true, "running"),
            _ => status(true, false, "stopped"),
        }
    }
}

/// Whether some line of the listing, trimmed, is the machine's name.
pub open spec fn names_vm(lines: Seq<Seq<char>>) -> bool {
    exists|i: int| 0 <= i < lines.len() && trimmed(#[trigger] lines[i]) == "k3s"@
}

/// Whether the listing of machine names holds the cluster's machine.
pub fn vm_exists(listing: &str) -> (found: bool)
    ensures
        found == names_vm(lines_of(listing@)),
{
    let all = lines(&chars_of(listing));
    let name = chars_of("k3s");
    let mut i: usize = 0;
    while i < all.len()
        invariant
            rows(all@) == lines_of(listing@),
            name@ == "k3s"@,
            i <= all@.len(),
            forall|a: int| 0 <= a < i ==> trimmed(#[trigger] rows(all@)[a]) != "k3s"@,
        decreases all@.len() - i,
    {
        assert(rows(all@)[i as int] == all@[i as int]@);
        let line = trim(&all[i]);
        if same_chars(&line, &name) {
            return true;
        }
        i += 1;
    }
    false
}

/// Whether two texts are the same.
pub fn same_chars(a: &Vec<char>, b: &Vec<char>) -> (same: bool)
    ensures
        same == (a@ == b@),
{
    if a.len() != b.len() {
        return false;
    }
    let mut i: usize = 0;
    while i < a.len()
        invariant
            a@.len() == b@.len(),
            i <= a@.len(),
            forall|k: int| 0 <= k < i ==> a@[k] == b@[k],
        decreases a@.len() - i,
    {
        if a[i] != b[i] {
            return false;
        }
        i += 1;
    }
    assert(a@ =~= b@);
    true
}

/// The arguments that start the cluster's machine: by its name where it
/// exists, from the template where it does not.
pub fn vm_start_args(present: bool) -> (args: Vec<String>)
    ensures
        texts(args@) == if present {
            seq!["start"@, "k3s"@]
        } else {
            seq!["start"@, "--name=k3s"@, "template://k3s"@]
        },
{
    let mut args: Vec<String> = Vec::new();
    args.push("start".to_owned());
    if present {
        args.push("k3s".to_owned());
        assert(texts(args@) =~= seq!["start"@, "k3s"@]);
    } else {
        args.push("--name=k3s".to_owned());
        args.push("template://k3s".to_owned());
        assert(texts(args@) =~= seq!["start"@, "--name=k3s"@, "template://k3s"@]);
    }
    args
}

/// One step of starting the cluster as a service of the machine.
#[derive(Clone, Copy, Debug, PartialEq, Eq, Structural)]
pub enum StartStep {
    /// Install the cluster's tool.
    Install,
    /// Start the service.
    StartService,
    /// Have the service start with the machine.
    EnableService,
    /// Make the directory of the cluster configuration.
    MakeConfigDir,
    /// Copy the cluster configuration into it.
    CopyConfig,
    /// Hand the copy to the user.
    OwnConfig,
}

/// The steps that bring the cluster up, in order. The tool is installed
/// where it is missing. A service that is active is left alone; else it is
/// started and enabled, and the configuration is copied for the user.
pub open spec fn steps_of(installed: bool, active: bool) -> Seq<StartStep> {
    let install = if installed {
        Seq::<StartStep>::empty()
    } else {
        seq![StartStep::Install]
    };
    if active {
        install
    } else {
        install + seq![
            StartStep::StartService,
            StartStep::EnableService,
            StartStep::MakeConfigDir,
            StartStep::CopyConfig,
            StartStep::OwnConfig,
        ]
    }
}

/// The steps that bring the cluster up, in order.
pub fn start_steps(installed: bool, active: bool) -> (steps: Vec<StartStep>)
    ensures
        steps@ == steps_of(installed, active),
{
    let mut steps: Vec<StartStep> = Vec::new();
    if !installed {
        steps.push(StartStep::Install);
    }
    if !active {
        steps.push(StartStep::StartService);
        steps.push(StartStep::EnableService);
        steps.push(StartStep::MakeConfigDir);
        steps.push(StartStep::CopyConfig);
        steps.push(StartStep::OwnConfig);
    }
    assert(steps@ =~= steps_of(installed, active));
    steps
}

/// The owner that the copy of the configuration is handed to: the user, and
/// the group of the same name.
pub fn owner_arg(user: &str) -> (arg: String)
    ensures
        arg@ == user@ + ":"@ + user@,
{
    user.to_owned().concat(":").concat(user)
}

/// The path of the configuration as text, or a path under `/tmp` where it
/// cannot be written as text.
pub fn config_path_or_default(path: Option<&str>) -> (text: String)
    ensures
        text@ == match path {
            Some(p) => p@,
            None => "/tmp/k3s.yaml"@,
        },
{
    match path {
        Some(p) => p.to_owned(),
        None => "/tmp/k3s.yaml".to_owned(),
    }
}

/// The cluster configuration for the user: that of the machine with `k3s`
/// in place of every `default`.
pub fn patch_kubeconfig(raw: &str) -> (patched: String)
    ensures
        patched@ == replaced(raw@, "default"@, "k3s"@),
{
    let from = chars_of("default");
    proof {
        reveal_strlit("default");
        assert("default"@.len() > 0);
    }
    to_string(&replace_all(&chars_of(raw), &from, &chars_of("k3s")))
}

/// What is reported of a command that ended with a failure: the program,
/// its arguments with spaces between them, and the exit code, or `?` where
/// it has none.
pub open spec fn exit_text(program: Seq<char>, args: Seq<Seq<char>>, code: Option<Seq<char>>) -> Seq<
    char,
> {
    "`"@ + program + " "@ + joined(args, " "@) + "` exited with "@ + match code {
        Some(c) => c,
        None => "?"@,
    }
}

/// The texts with `sep` between them.
pub open spec fn joined(parts: Seq<Seq<char>>, sep: Seq<char>) -> Seq<char>
    decreases parts.len(),
{
    if parts.len() == 0 {
        Seq::empty()
    } else if parts.len() == 1 {
        parts[0]
    } else {
        joined(parts.drop_last(), sep) + sep + parts.last()
    }
}

/// The strings with `sep` between them.
pub fn join(parts: &Vec<String>, sep: &str) -> (out: String)
    ensures
        out@ == joined(texts(parts@), sep@),
{
    let mut out = String::new();
    let ghost all = texts(parts@);
    let mut i: usize = 0;
    while i < parts.len()
        invariant
            all == texts(parts@),
            i <= parts@.len(),
            out@ == joined(all.take(i as int), sep@),
        decreases parts@.len() - i,
    {
        proof {
            assert(all.take(i + 1).drop_last() =~= all.take(i as int));
            assert(all.take(i + 1).last() == parts@[i as int]@);
        }
        if i > 0 {
            out.append(sep);
        }
        out.append(parts[i].as_str());
        proof {
            if i == 0 {
                assert(out@ =~= parts@[0]@);
                assert(all.take(1)[0] == parts@[0]@);
            }
        }
        i += 1;
    }
    assert(all.take(parts@.len() as int) =~= all);
    out
}

/// What is reported of a command that ended with a failure. The exit code
/// comes as text.
pub fn exit_message(program: &str, args: &Vec<String>, code: Option<&str>) -> (msg: String)
    ensures
        msg@ == exit_text(
            program@,
            texts(args@),
            match code {
                Some(c) => Some(c@),
                None => None,
            },
        ),
{
    let shown = match code {
        Some(c) => c,
        None => "?",
    };
    let all = join(args, " ");
    "`".to_owned().concat(program).concat(" ").concat(all.as_str()).concat(
        "` exited with ",
    ).concat(shown)
}

/// The namespaces that the listing names: its words.
pub fn parse_namespaces(out: &str) -> (names: Vec<String>)
    ensures
        texts(names@) == words_of(out@),
{
    let found = words(&chars_of(out));
    let names = to_strings(&found);
    assert(texts(names@) =~= rows(found@));
    names
}

/// The word of a line at a column, or `missing` where the line has fewer.
pub open spec fn word_or(found: Seq<Seq<char>>, k: int, missing: Seq<char>) -> Seq<char> {
    if 0 <= k < found.len() {
        found[k]
    } else {
        missing
    }
}

/// The pod that a line of the listing describes. Its words are, in order,
/// name, namespace, status, readiness, restarts and node. A word that is
/// lacking is empty, the readiness `false` and the restarts 0; so are
/// restarts that are no number.
pub open spec fn pod_of(line: Seq<char>) -> PodModel {
    let found = words_of(line);
    PodModel {
        name: word_or(found, 0, Seq::empty()),
        namespace: word_or(found, 1, Seq::empty()),
        status: word_or(found, 2, Seq::empty()),
        ready: word_or(found, 3, "false"@),
        restarts: if found.len() > 4 {
            match small_number(found[4]) {
                Some(n) => n,
                None => 0,
            }
        } else {
            0
        },
        age: Seq::empty(),
        node: word_or(found, 5, Seq::empty()),
    }
}

/// The pods of the lines that hold more than white space, in order.
pub open spec fn pods_of(lines: Seq<Seq<char>>) -> Seq<PodModel>
    decreases lines.len(),
{
    if lines.len() == 0 {
        Seq::empty()
    } else if trimmed(lines.last()).len() == 0 {
        pods_of(lines.drop_last())
    } else {
        pods_of(lines.drop_last()).push(pod_of(lines.last()))
    }
}

/// What the pods hold, in order.
pub open spec fn pod_models(pods: Seq<KubePod>) -> Seq<PodModel> {
    Seq::new(pods.len(), |i: int| pods[i]@)
}

/// The word at a column, or `missing` where there are fewer words.
fn word_at(found: &Vec<Vec<char>>, k: usize, missing: &str) -> (text: String)
    ensures
        text@ == word_or(rows(found@), k as int, missing@),
{
    if k < found.len() {
        assert(rows(found@)[k as int] == found@[k as int]@);
        to_string(&found[k])
    } else {
        missing.to_owned()
    }
}

/// The pod that a line of the listing describes.
pub fn parse_pod(line: &Vec<char>) -> (pod: KubePod)
    ensures
        pod@ == pod_of(line@),
{
    let found = words(line);
    let restarts = if found.len() > 4 {
        assert(rows(found@)[4] == found@[4]@);
        match parse_u32(to_string(&found[4]).as_str()) {
            Some(n) => n,
            None => 0,
        }
    } else {
        0
    };
    proof {
        reveal_strlit("");
        assert(""@ =~= Seq::<char>::empty());
    }
    KubePod {
        name: word_at(&found, 0, ""),
        namespace: word_at(&found, 1, ""),
        status: word_at(&found, 2, ""),
        ready: word_at(&found, 3, "false"),
        restarts,
        age: String::new(),
        node: word_at(&found, 5, ""),
    }
}

/// The pods that the listing describes, one per line; blank lines are passed
/// over.
pub fn parse_pods(out: &str) -> (pods: Vec<KubePod>)
    ensures
        pod_models(pods@) == pods_of(lines_of(out@)),
{
    let all = lines(&chars_of(out));
    let ghost found = rows(all@);
    let mut pods: Vec<KubePod> = Vec::new();
    let mut i: usize = 0;
    while i < all.len()
        invariant
            found == rows(all@),
            found == lines_of(out@),
            i <= all@.len(),
            pod_models(pods@) == pods_of(found.take(i as int)),
        decreases all@.len() - i,
    {
        let ghost before = pod_models(pods@);
        proof {
            assert(found.take(i + 1).drop_last() =~= found.take(i as int));
            assert(found.take(i + 1).last() == all@[i as int]@);
        }
        if trim(&all[i]).len() > 0 {
            let pod = parse_pod(&all[i]);
            pods.push(pod);
            assert(pod_models(pods@) =~= before.push(pod_of(all@[i as int]@)));
        }
        i += 1;
    }
    assert(found.take(all@.len() as int) =~= found);
    pods
}

/// The arguments that pick the namespace of a listing: the one that is
/// named, or all of them.
pub fn namespace_args(namespace: Option<&str>) -> (args: Vec<String>)
    ensures
        texts(args@) == match namespace {
            Some(ns) => seq!["-n"@, ns@],
            None => seq!["--all-namespaces"@],
        },
{
    let mut args: Vec<String> = Vec::new();
    match namespace {
        Some(ns) => {
            args.push("-n".to_owned());
            args.push(ns.to_owned());
            assert(texts(args@) =~= seq!["-n"@, ns@]);
        },
        None => {
            args.push("--all-namespaces".to_owned());
            assert(texts(args@) =~= seq!["--all-namespaces"@]);
        },
    }
    args
}

/// What a node holds.
pub struct NodeModel {
    pub name: Seq<char>,
    pub status: Seq<char>,
    pub roles: Seq<char>,
    pub version: Seq<char>,
}

impl View for KubeNode {
    type V = NodeModel;

    open spec fn view(&self) -> NodeModel {
        NodeModel {
            name: self.name@,
            status: self.status@,
            roles: self.roles@,
            version: self.version@,
        }
    }
}

/// What the nodes hold, in order.
pub open spec fn node_models(nodes: Seq<KubeNode>) -> Seq<NodeModel> {
    Seq::new(nodes.len(), |i: int| nodes[i]@)
}

/// What a label that names a role begins with.
pub open spec fn role_prefix() -> Seq<char> {
    "node-role.kubernetes.io/"@
}

/// The roles that the labels name, in the order of the labels.
pub open spec fn roles_in(labels: Seq<Seq<char>>) -> Seq<Seq<char>>
    decreases labels.len(),
{
    if labels.len() == 0 {
        Seq::empty()
    } else {
        match after_prefix(labels.last(), role_prefix()) {
            Some(role) => roles_in(labels.drop_last()).push(role),
            None => roles_in(labels.drop_last()),
        }
    }
}

/// The roles of a node as text: those that its labels name, in dictionary
/// order with commas between them, or `<none>` where there are none.
pub open spec fn roles_text(labels: Option<Json>) -> Seq<char> {
    match names_in(labels) {
        Some(found) => {
            let roles = ordered(roles_in(found));
            if roles.len() == 0 {
                "<none>"@
            } else {
                joined(roles, ","@)
            }
        },
        None => "<none>"@,
    }
}

/// The position of the first condition of the type `Ready`, or the number
/// of conditions.
pub open spec fn ready_at(conditions: Seq<Json>) -> int
    decreases conditions.len(),
{
    if conditions.len() == 0 {
        0
    } else if text_in(member(Some(conditions[0]), "type"@)) == Some("Ready"@) {
        0
    } else {
        1 + ready_at(conditions.skip(1))
    }
}

/// Whether a node is ready, as text: `Ready` where the first condition of
/// that type has the status `True`, `NotReady` where it has another status,
/// and `Unknown` where there is no such condition or it has no status.
pub open spec fn readiness_text(conditions: Option<Json>) -> Seq<char> {
    match items_in(conditions) {
        Some(found) => {
            let at = ready_at(found);
            if 0 <= at < found.len() {
                match text_in(member(Some(found[at]), "status"@)) {
                    Some(status) => if status == "True"@ {
                        "Ready"@
                    } else {
                        "NotReady"@
                    },
                    None => "Unknown"@,
                }
            } else {
                "Unknown"@
            }
        },
        None => "Unknown"@,
    }
}

/// The text of a value, or the empty text where the value is no text.
pub open spec fn text_or_empty(j: Option<Json>) -> Seq<char> {
    match text_in(j) {
        Some(s) => s,
        None => Seq::empty(),
    }
}

/// The node that an item of the listing describes.
pub open spec fn node_of(item: Json) -> NodeModel {
    let metadata = member(Some(item), "metadata"@);
    let status = member(Some(item), "status"@);
    NodeModel {
        name: text_or_empty(member(metadata, "name"@)),
        status: readiness_text(member(status, "conditions"@)),
        roles: roles_text(member(metadata, "labels"@)),
        version: text_or_empty(member(member(status, "nodeInfo"@), "kubeletVersion"@)),
    }
}

/// The nodes that a listing describes: one for each of its items.
pub open spec fn nodes_in(doc: Json) -> Seq<NodeModel> {
    match items_in(member(Some(doc), "items"@)) {
        Some(found) => Seq::new(found.len(), |i: int| node_of(found[i])),
        None => Seq::empty(),
    }
}

/// The text of a value, or the empty text where the value is no text.
fn text_or_default(j: Option<&Json>) -> (out: String)
    ensures
        out@ == text_or_empty(held(j)),
{
    match text(j) {
        Some(s) => s.clone(),
        None => String::new(),
    }
}

/// The roles of a node as text.
pub fn roles_of(labels: Option<&Json>) -> (out: String)
    ensures
        out@ == roles_text(held(labels)),
{
    match names(labels) {
        None => "<none>".to_owned(),
        Some(found) => {
            let prefix = chars_of("node-role.kubernetes.io/");
            let ghost all = rows(found@);
            let mut roles: Vec<Vec<char>> = Vec::new();
            let mut i: usize = 0;
            while i < found.len()
                invariant
                    all == rows(found@),
                    prefix@ == role_prefix(),
                    i <= found@.len(),
                    rows(roles@) == roles_in(all.take(i as int)),
                decreases found@.len() - i,
            {
                let ghost before = rows(roles@);
                proof {
                    assert(all.take(i + 1).drop_last() =~= all.take(i as int));
                    assert(all.take(i + 1).last() == found@[i as int]@);
                }
                match strip_prefix(&found[i], &prefix) {
                    Some(role) => {
                        roles.push(role);
                        assert(rows(roles@) =~= before.push(role@));
                    },
                    None => {},
                }
                i += 1;
            }
            assert(all.take(found@.len() as int) =~= all);
            let sorted = sort(roles);
            if sorted.len() == 0 {
                "<none>".to_owned()
            } else {
                let shown = to_strings(&sorted);
                assert(texts(shown@) =~= rows(sorted@));
                join(&shown, ",")
            }
        },
    }
}

/// Whether a node is ready, as text.
pub fn readiness_of(conditions: Option<&Json>) -> (out: String)
    ensures
        out@ == readiness_text(held(conditions)),
{
    match items(conditions) {
        None => "Unknown".to_owned(),
        Some(found) => {
            let mut i: usize = 0;
            assert(found@.skip(0) =~= found@);
            while i < found.len()
                invariant
                    i <= found@.len(),
                    items_in(held(conditions)) == Some(found@),
                    ready_at(found@) == i + ready_at(found@.skip(i as int)),
                decreases found@.len() - i,
            {
                proof {
                    assert(found@.skip(i as int)[0] == found@[i as int]);
                    assert(found@.skip(i as int).skip(1) =~= found@.skip(i + 1));
                }
                let kind = text(get(Some(&found[i]), "type"));
                let is_ready = match kind {
                    Some(k) => same_text(k.as_str(), "Ready"),
                    None => false,
                };
                if is_ready {
                    return match text(get(Some(&found[i]), "status")) {
                        Some(status) => if same_text(status.as_str(), "True") {
                            "Ready".to_owned()
                        } else {
                            "NotReady".to_owned()
                        },
                        None => "Unknown".to_owned(),
                    };
                }
                i += 1;
            }
            assert(found@.skip(i as int).len() == 0);
            "Unknown".to_owned()
        },
    }
}

/// The node that an item of the listing describes.
pub fn parse_node(item: &Json) -> (node: KubeNode)
    ensures
        node@ == node_of(*item),
{
    let metadata = get(Some(item), "metadata");
    let status = get(Some(item), "status");
    KubeNode {
        name: text_or_default(get(metadata, "name")),
        status: readiness_of(get(status, "conditions")),
        roles: roles_of(get(metadata, "labels")),
        version: text_or_default(get(get(status, "nodeInfo"), "kubeletVersion")),
    }
}

/// The nodes that a listing describes.
pub fn nodes_of(doc: &Json) -> (nodes: Vec<KubeNode>)
    ensures
        node_models(nodes@) == nodes_in(*doc),
{
    let mut nodes: Vec<KubeNode> = Vec::new();
    match items(get(Some(doc), "items")) {
        None => {
            assert(node_models(nodes@) =~= Seq::<NodeModel>::empty());
        },
        Some(found) => {
            let mut i: usize = 0;
            while i < found.len()
                invariant
                    i <= found@.len(),
                    nodes@.len() == i,
                    forall|a: int| 0 <= a < i ==> (#[trigger] nodes@[a])@ == node_of(found@[a]),
                decreases found@.len() - i,
            {
                nodes.push(parse_node(&found[i]));
                i += 1;
            }
            assert(node_models(nodes@) =~= Seq::new(found@.len(), |i: int| node_of(found@[i])));
        },
    }
    nodes
}

/// The nodes that the cluster tool printed as JSON; output that is no JSON
/// gives no nodes.
pub fn parse_nodes(out: &[u8]) -> (nodes: Vec<KubeNode>)
    ensures
        node_models(nodes@) == nodes_in(crate::json::document_or_null(out@)),
{
    let doc = crate::json::parse(out);
    nodes_of(&doc)
}

/// The columns that the listing of the pods is asked for.
pub open spec fn pod_columns() -> Seq<char> {
    "custom-columns=NAME:.metadata.name,NAMESPACE:.metadata.namespace,STATUS:.status.phase,READY:.status.containerStatuses[0].ready,RESTARTS:.status.containerStatuses[0].restartCount,NODE:.spec.nodeName"@
}

/// The arguments that list the pods of a namespace, or of all, one per line
/// without headings.
pub fn pods_args(namespace: Option<&str>) -> (args: Vec<String>)
    ensures
        texts(args@) == seq!["get"@, "pods"@] + match namespace {
            Some(ns) => seq!["-n"@, ns@],
            None => seq!["--all-namespaces"@],
        } + seq!["-o"@, pod_columns(), "--no-headers"@],
{
    let mut args: Vec<String> = Vec::new();
    args.push("get".to_owned());
    args.push("pods".to_owned());
    match namespace {
        Some(ns) => {
            args.push("-n".to_owned());
            args.push(ns.to_owned());
        },
        None => {
            args.push("--all-namespaces".to_owned());
        },
    }
    args.push("-o".to_owned());
    args.push(
        "custom-columns=NAME:.metadata.name,NAMESPACE:.metadata.namespace,STATUS:.status.phase,READY:.status.containerStatuses[0].ready,RESTARTS:.status.containerStatuses[0].restartCount,NODE:.spec.nodeName".to_owned(),
    );
    args.push("--no-headers".to_owned());
    assert(texts(args@) =~= seq!["get"@, "pods"@] + match namespace {
        Some(ns) => seq!["-n"@, ns@],
        None => seq!["--all-namespaces"@],
    } + seq!["-o"@, pod_columns(), "--no-headers"@]);
    args
}

/// The arguments that show the last `tail` lines of a pod's log, with the
/// time of each.
pub fn pod_logs_args(namespace: &str, name: &str, tail: usize) -> (args: Vec<String>)
    ensures
        texts(args@) == seq![
            "logs"@,
            name@,
            "-n"@,
            namespace@,
            "--tail="@ + decimal_text(tail as nat),
            "--timestamps=true"@,
        ],
{
    let mut args: Vec<String> = Vec::new();
    args.push("logs".to_owned());
    args.push(name.to_owned());
    args.push("-n".to_owned());
    args.push(namespace.to_owned());
    args.push("--tail=".to_owned().concat(number_text(tail as u64).as_str()));
    args.push("--timestamps=true".to_owned());
    assert(texts(args@) =~= seq![
        "logs"@,
        name@,
        "-n"@,
        namespace@,
        "--tail="@ + decimal_text(tail as nat),
        "--timestamps=true"@,
    ]);
    args
}

/// The arguments that delete a pod at once.
pub fn delete_pod_args(namespace: &str, name: &str) -> (args: Vec<String>)
    ensures
        texts(args@) == seq!["delete"@, "pod"@, name@, "-n"@, namespace@, "--grace-period=0"@],
{
    let mut args: Vec<String> = Vec::new();
    args.push("delete".to_owned());
    args.push("pod".to_owned());
    args.push(name.to_owned());
    args.push("-n".to_owned());
    args.push(namespace.to_owned());
    args.push("--grace-period=0".to_owned());
    assert(texts(args@) =~= seq![
        "delete"@,
        "pod"@,
        name@,
        "-n"@,
        namespace@,
        "--grace-period=0"@,
    ]);
    args
}

/// What is reported of a pod that could not be deleted.
pub fn delete_failure(name: &str) -> (msg: String)
    ensures
        msg@ == "kubectl delete pod "@ + name@ + " failed"@,
{
    "kubectl delete pod ".to_owned().concat(name).concat(" failed")
}

/// The namespaces that a run of the cluster tool lists; none where it failed.
pub fn listed_namespaces(success: bool, out: &str) -> (names: Vec<String>)
    ensures
        texts(names@) == if success {
            words_of(out@)
        } else {
            Seq::empty()
        },
{
    if success {
        parse_namespaces(out)
    } else {
        let names: Vec<String> = Vec::new();
        assert(texts(names@) =~= Seq::<Seq<char>>::empty());
        names
    }
}

/// The nodes that a run of the cluster tool lists; none where it failed.
pub fn listed_nodes(success: bool, out: &[u8]) -> (nodes: Vec<KubeNode>)
    ensures
        node_models(nodes@) == if success {
            nodes_in(crate::json::document_or_null(out@))
        } else {
            Seq::empty()
        },
{
    if success {
        parse_nodes(out)
    } else {
        let nodes: Vec<KubeNode> = Vec::new();
        assert(node_models(nodes@) =~= Seq::<NodeModel>::empty());
        nodes
    }
}

/// The pods that a run of the cluster tool lists; none where it failed.
pub fn listed_pods(success: bool, out: &str) -> (pods: Vec<KubePod>)
    ensures
        pod_models(pods@) == if success {
            pods_of(lines_of(out@))
        } else {
            Seq::empty()
        },
{
    if success {
        parse_pods(out)
    } else {
        let pods: Vec<KubePod> = Vec::new();
        assert(pod_models(pods@) =~= Seq::<PodModel>::empty());
        pods
    }
}

} // verus!
