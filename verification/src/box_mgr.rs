//! The container engine's command line: what its listings hold.
//!
//! Running the tool is the caller's part; this module reads what it printed.

use crate::error::DevError;
use crate::graph::texts;
use crate::text::{
    after_prefix, chars_of, decimal_text, lines, lines_of, number_text, parse_u32, parts_from,
    pieces_of, rows, small_number, split, split_n, strip_prefix, to_string, trim, trimmed, words,
    words_of,
};
use vstd::prelude::*;
use vstd::string::StringExecFns;

verus! {

/// One container of the listing.
#[derive(Debug)]
pub struct BoxContainer {
    pub id: String,
    pub name: String,
    pub image: String,
    pub status: String,
    pub created: String,
    pub ports: String,
    pub command: String,
}

/// One image of the listing.
#[derive(Debug)]
pub struct BoxImage {
    pub repository: String,
    pub tag: String,
    pub digest: String,
    pub size: String,
    pub pulled: String,
    pub reference: String,
}

/// One network of the listing.
#[derive(Debug)]
pub struct BoxNetwork {
    pub name: String,
    pub driver: String,
    pub subnet: String,
    pub gateway: String,
    pub isolation: String,
    pub endpoints: String,
}

/// One volume of the listing.
#[derive(Debug)]
pub struct BoxVolume {
    pub driver: String,
    pub name: String,
    pub mount_point: String,
    pub in_use_by: String,
}

/// What the engine reports of itself.
#[derive(Debug)]
pub struct BoxInfo {
    pub version: String,
    pub virtualization: String,
    pub home: String,
    pub boxes_total: u32,
    pub boxes_running: u32,
    pub images_cached: String,
}

/// What the engine's report holds.
pub struct InfoModel {
    pub version: Seq<char>,
    pub virtualization: Seq<char>,
    pub home: Seq<char>,
    pub boxes_total: u32,
    pub boxes_running: u32,
    pub images_cached: Seq<char>,
}

impl View for BoxInfo {
    type V = InfoModel;

    open spec fn view(&self) -> InfoModel {
        InfoModel {
            version: self.version@,
            virtualization: self.virtualization@,
            home: self.home@,
            boxes_total: self.boxes_total,
            boxes_running: self.boxes_running,
            images_cached: self.images_cached@,
        }
    }
}

impl BoxContainer {
    /// The fields in the order of the declaration.
    pub open spec fn columns(&self) -> Seq<Seq<char>> {
        seq![
            self.id@,
            self.name@,
            self.image@,
            self.status@,
            self.created@,
            self.ports@,
            self.command@,
        ]
    }
}

impl BoxImage {
    /// The fields in the order of the declaration.
    pub open spec fn columns(&self) -> Seq<Seq<char>> {
        seq![
            self.repository@,
            self.tag@,
            self.digest@,
            self.size@,
            self.pulled@,
            self.reference@,
        ]
    }
}

impl BoxNetwork {
    /// The fields in the order of the columns of the listing.
    pub open spec fn columns(&self) -> Seq<Seq<char>> {
        seq![
            self.name@,
            self.driver@,
            self.subnet@,
            self.gateway@,
            self.isolation@,
            self.endpoints@,
        ]
    }
}

impl BoxVolume {
    /// The fields in the order of the columns of the listing.
    pub open spec fn columns(&self) -> Seq<Seq<char>> {
        seq![self.driver@, self.name@, self.mount_point@, self.in_use_by@]
    }
}

impl Default for BoxContainer {
    fn default() -> (c: BoxContainer)
        ensures
            forall|k: int| 0 <= k < 7 ==> (#[trigger] c.columns()[k]).len() == 0,
    {
        BoxContainer {
            id: String::new(),
            name: String::new(),
            image: String::new(),
            status: String::new(),
            created: String::new(),
            ports: String::new(),
            command: String::new(),
        }
    }
}

impl Default for BoxImage {
    fn default() -> (i: BoxImage)
        ensures
            forall|k: int| 0 <= k < 6 ==> (#[trigger] i.columns()[k]).len() == 0,
    {
        BoxImage {
            repository: String::new(),
            tag: String::new(),
            digest: String::new(),
            size: String::new(),
            pulled: String::new(),
            reference: String::new(),
        }
    }
}

impl Default for BoxNetwork {
    fn default() -> (n: BoxNetwork)
        ensures
            forall|k: int| 0 <= k < 6 ==> (#[trigger] n.columns()[k]).len() == 0,
    {
        BoxNetwork {
            name: String::new(),
            driver: String::new(),
            subnet: String::new(),
            gateway: String::new(),
            isolation: String::new(),
            endpoints: String::new(),
        }
    }
}

impl Default for BoxVolume {
    fn default() -> (v: BoxVolume)
        ensures
            forall|k: int| 0 <= k < 4 ==> (#[trigger] v.columns()[k]).len() == 0,
    {
        BoxVolume {
            driver: String::new(),
            name: String::new(),
            mount_point: String::new(),
            in_use_by: String::new(),
        }
    }
}

/// A report that says nothing.
pub open spec fn empty_info() -> InfoModel {
    InfoModel {
        version: Seq::empty(),
        virtualization: Seq::empty(),
        home: Seq::empty(),
        boxes_total: 0,
        boxes_running: 0,
        images_cached: Seq::empty(),
    }
}

impl Default for BoxInfo {
    fn default() -> (info: BoxInfo)
        ensures
            info@ == empty_info(),
    {
        BoxInfo {
            version: String::new(),
            virtualization: String::new(),
            home: String::new(),
            boxes_total: 0,
            boxes_running: 0,
            images_cached: String::new(),
        }
    }
}

/// The most columns that a row of a table is parted into.
pub const MAX_COLUMNS: usize = 20;

/// The texts of a table, row by row.
pub open spec fn grid(table: Seq<Vec<String>>) -> Seq<Seq<Seq<char>>> {
    Seq::new(table.len(), |i: int| texts(table[i]@))
}

/// The trimmed texts of `parts` that are not empty, in order.
pub open spec fn cells_of(parts: Seq<Seq<char>>) -> Seq<Seq<char>>
    decreases parts.len(),
{
    if parts.len() == 0 {
        Seq::empty()
    } else if trimmed(parts.last()).len() == 0 {
        cells_of(parts.drop_last())
    } else {
        cells_of(parts.drop_last()).push(trimmed(parts.last()))
    }
}

/// The cells of a line of a table: the trimmed line is parted wherever two
/// spaces follow one another, into 20 parts at most, and the parts that hold
/// more than white space are its cells.
pub open spec fn row_of(line: Seq<char>) -> Seq<Seq<char>> {
    cells_of(parts_from(trimmed(line), "  "@, 0, MAX_COLUMNS as nat))
}

/// The rows of the lines that hold more than white space, in order.
pub open spec fn table_of(lines: Seq<Seq<char>>) -> Seq<Seq<Seq<char>>>
    decreases lines.len(),
{
    if lines.len() == 0 {
        Seq::empty()
    } else if trimmed(lines.last()).len() == 0 {
        table_of(lines.drop_last())
    } else {
        table_of(lines.drop_last()).push(row_of(lines.last()))
    }
}

/// The lines without the first one, which holds the headings.
pub open spec fn below_header(lines: Seq<Seq<char>>) -> Seq<Seq<char>> {
    if lines.len() == 0 {
        lines
    } else {
        lines.skip(1)
    }
}

/// The cells of a line of a table.
pub fn parse_row(line: &Vec<char>) -> (cells: Vec<String>)
    ensures
        texts(cells@) == row_of(line@),
{
    let gap = chars_of("  ");
    proof {
        reveal_strlit("  ");
    }
    let parts = split_n(&trim(line), &gap, MAX_COLUMNS);
    let ghost all = rows(parts@);
    let mut cells: Vec<String> = Vec::new();
    let mut k: usize = 0;
    while k < parts.len()
        invariant
            all == rows(parts@),
            k <= parts@.len(),
            texts(cells@) == cells_of(all.take(k as int)),
        decreases parts@.len() - k,
    {
        let ghost before = texts(cells@);
        proof {
            assert(all.take(k + 1).drop_last() =~= all.take(k as int));
            assert(all.take(k + 1).last() == parts@[k as int]@);
        }
        let cell = trim(&parts[k]);
        if cell.len() > 0 {
            let text = to_string(&cell);
            cells.push(text);
            assert(texts(cells@) =~= before.push(cell@));
        }
        k += 1;
    }
    assert(all.take(parts@.len() as int) =~= all);
    cells
}

/// Reads a table of fixed-width columns: the first line holds the headings
/// and is passed over, blank lines are passed over, and every other line
/// gives the row of its cells.
pub fn parse_table(text: &str) -> (table: Vec<Vec<String>>)
    ensures
        grid(table@) == table_of(below_header(lines_of(text@))),
{
    let chars = chars_of(text);
    let all = lines(&chars);
    let ghost body = below_header(rows(all@));
    let mut table: Vec<Vec<String>> = Vec::new();
    let mut i: usize = 1;
    while i < all.len()
        invariant
            body == below_header(rows(all@)),
            rows(all@) == lines_of(text@),
            1 <= i,
            i <= all@.len() || all@.len() == 0,
            all@.len() > 0 ==> grid(table@) == table_of(body.take(i - 1)),
            all@.len() == 0 ==> grid(table@) == table_of(body),
        decreases all@.len() - i,
    {
        let ghost before = grid(table@);
        proof {
            assert(body.take(i as int).drop_last() =~= body.take(i - 1));
            assert(body.take(i as int).last() == all@[i as int]@);
        }
        if trim(&all[i]).len() > 0 {
            let cells = parse_row(&all[i]);
            table.push(cells);
            assert(grid(table@) =~= before.push(row_of(all@[i as int]@)));
        }
        i += 1;
    }
    proof {
        if all@.len() > 0 {
            assert(body.take(all@.len() - 1) =~= body);
        } else {
            assert(grid(table@) =~= table_of(body));
        }
    }
    table
}

/// The cell of a row at a column, or the empty text where the row is
/// shorter.
pub open spec fn cell(row: Seq<Seq<char>>, k: int) -> Seq<char> {
    if 0 <= k < row.len() {
        row[k]
    } else {
        Seq::empty()
    }
}

/// The cell of a row at a column, or the empty text where the row is shorter.
pub fn cell_at(row: &Vec<String>, k: usize) -> (text: String)
    ensures
        text@ == cell(texts(row@), k as int),
{
    if k < row.len() {
        row[k].clone()
    } else {
        String::new()
    }
}

/// The networks that the rows of the listing describe: name, driver, subnet,
/// gateway, isolation and endpoints, in this order, with the empty text for
/// a column that a row lacks.
pub fn networks_of(table: &Vec<Vec<String>>) -> (out: Vec<BoxNetwork>)
    ensures
        out@.len() == table@.len(),
        forall|i: int, k: int|
            0 <= i < out@.len() && 0 <= k < 6 ==> #[trigger] out@[i].columns()[k] == cell(
                grid(table@)[i],
                k,
            ),
{
    let mut out: Vec<BoxNetwork> = Vec::new();
    let mut i: usize = 0;
    while i < table.len()
        invariant
            i <= table@.len(),
            out@.len() == i,
            forall|a: int, k: int|
                0 <= a < i && 0 <= k < 6 ==> #[trigger] out@[a].columns()[k] == cell(
                    grid(table@)[a],
                    k,
                ),
        decreases table@.len() - i,
    {
        let row = &table[i];
        out.push(
            BoxNetwork {
                name: cell_at(row, 0),
                driver: cell_at(row, 1),
                subnet: cell_at(row, 2),
                gateway: cell_at(row, 3),
                isolation: cell_at(row, 4),
                endpoints: cell_at(row, 5),
            },
        );
        i += 1;
    }
    out
}

/// The volumes that the rows of the listing describe: driver, name, mount
/// point and user, in this order, with the empty text for a column that a
/// row lacks.
pub fn volumes_of(table: &Vec<Vec<String>>) -> (out: Vec<BoxVolume>)
    ensures
        out@.len() == table@.len(),
        forall|i: int, k: int|
            0 <= i < out@.len() && 0 <= k < 4 ==> #[trigger] out@[i].columns()[k] == cell(
                grid(table@)[i],
                k,
            ),
{
    let mut out: Vec<BoxVolume> = Vec::new();
    let mut i: usize = 0;
    while i < table.len()
        invariant
            i <= table@.len(),
            out@.len() == i,
            forall|a: int, k: int|
                0 <= a < i && 0 <= k < 4 ==> #[trigger] out@[a].columns()[k] == cell(
                    grid(table@)[a],
                    k,
                ),
        decreases table@.len() - i,
    {
        let row = &table[i];
        out.push(
            BoxVolume {
                driver: cell_at(row, 0),
                name: cell_at(row, 1),
                mount_point: cell_at(row, 2),
                in_use_by: cell_at(row, 3),
            },
        );
        i += 1;
    }
    out
}

/// The number that a text begins with: that of its first word, or 0 where
/// there is no word or the word is no number of 32 bits.
pub open spec fn leading_count(text: Seq<char>) -> u32 {
    let found = words_of(trimmed(text));
    if found.len() == 0 {
        0
    } else {
        match small_number(found[0]) {
            Some(n) => n,
            None => 0,
        }
    }
}

/// The number that a text begins with.
pub fn count_of(text: &Vec<char>) -> (n: u32)
    ensures
        n == leading_count(text@),
{
    let found = words(&trim(text));
    if found.len() == 0 {
        return 0;
    }
    assert(rows(found@)[0] == found@[0]@);
    let word = to_string(&found[0]);
    match parse_u32(word.as_str()) {
        Some(n) => n,
        None => 0,
    }
}

/// The report after one more line of the tool's output. A line is known by
/// what it begins with; any other line changes nothing. Of the line of the
/// boxes, the part before the first comma gives the total and the part
/// after it, where there is one, those that run.
pub open spec fn info_after(info: InfoModel, line: Seq<char>) -> InfoModel {
    let text = trimmed(line);
    if let Some(v) = after_prefix(text, "a3s-box version "@) {
        InfoModel { version: trimmed(v), ..info }
    } else if let Some(v) = after_prefix(text, "Virtualization: "@) {
        InfoModel { virtualization: trimmed(v), ..info }
    } else if let Some(v) = after_prefix(text, "Home directory: "@) {
        InfoModel { home: trimmed(v), ..info }
    } else if let Some(v) = after_prefix(text, "Boxes: "@) {
        let parts = pieces_of(v, ',');
        InfoModel {
            boxes_total: if parts.len() > 0 {
                leading_count(parts[0])
            } else {
                info.boxes_total
            },
            boxes_running: if parts.len() > 1 {
                leading_count(parts[1])
            } else {
                info.boxes_running
            },
            ..info
        }
    } else if let Some(v) = after_prefix(text, "Images: "@) {
        InfoModel { images_cached: trimmed(v), ..info }
    } else {
        info
    }
}

/// The report after all the lines, first to last.
pub open spec fn info_of(info: InfoModel, lines: Seq<Seq<char>>) -> InfoModel
    decreases lines.len(),
{
    if lines.len() == 0 {
        info
    } else {
        info_after(info_of(info, lines.drop_last()), lines.last())
    }
}

/// Takes one line of the tool's output into the report.
pub fn read_info_line(info: &mut BoxInfo, line: &Vec<char>)
    ensures
        final(info)@ == info_after(old(info)@, line@),
{
    let text = trim(line);
    if let Some(v) = strip_prefix(&text, &chars_of("a3s-box version ")) {
        info.version = to_string(&trim(&v));
    } else if let Some(v) = strip_prefix(&text, &chars_of("Virtualization: ")) {
        info.virtualization = to_string(&trim(&v));
    } else if let Some(v) = strip_prefix(&text, &chars_of("Home directory: ")) {
        info.home = to_string(&trim(&v));
    } else if let Some(v) = strip_prefix(&text, &chars_of("Boxes: ")) {
        let parts = split(&v, ',');
        assert(rows(parts@)[0] == parts@[0]@);
        info.boxes_total = count_of(&parts[0]);
        if parts.len() > 1 {
            assert(rows(parts@)[1] == parts@[1]@);
            info.boxes_running = count_of(&parts[1]);
        }
    } else if let Some(v) = strip_prefix(&text, &chars_of("Images: ")) {
        info.images_cached = to_string(&trim(&v));
    }
}

/// Reads what the engine reports of itself.
pub fn parse_info(text: &str) -> (info: BoxInfo)
    ensures
        info@ == info_of(empty_info(), lines_of(text@)),
{
    let chars = chars_of(text);
    let all = lines(&chars);
    let ghost texts = rows(all@);
    let mut info = BoxInfo::default();
    let mut i: usize = 0;
    while i < all.len()
        invariant
            texts == rows(all@),
            i <= all@.len(),
            info@ == info_of(empty_info(), texts.take(i as int)),
        decreases all@.len() - i,
    {
        proof {
            assert(texts.take(i + 1).drop_last() =~= texts.take(i as int));
            assert(texts.take(i + 1).last() == all@[i as int]@);
        }
        read_info_line(&mut info, &all[i]);
        i += 1;
    }
    assert(texts.take(all@.len() as int) =~= texts);
    info
}

/// The trimmed lines that hold more than white space, in order.
pub open spec fn records_of(lines: Seq<Seq<char>>) -> Seq<Seq<char>>
    decreases lines.len(),
{
    if lines.len() == 0 {
        Seq::empty()
    } else if trimmed(lines.last()).len() == 0 {
        records_of(lines.drop_last())
    } else {
        records_of(lines.drop_last()).push(trimmed(lines.last()))
    }
}

/// The records of a listing that gives one record per line: the trimmed
/// lines, without those that are blank.
pub fn records(text: &str) -> (out: Vec<String>)
    ensures
        texts(out@) == records_of(lines_of(text@)),
{
    let chars = chars_of(text);
    let all = lines(&chars);
    let ghost found = rows(all@);
    let mut out: Vec<String> = Vec::new();
    let mut i: usize = 0;
    while i < all.len()
        invariant
            found == rows(all@),
            i <= all@.len(),
            texts(out@) == records_of(found.take(i as int)),
        decreases all@.len() - i,
    {
        let ghost before = texts(out@);
        proof {
            assert(found.take(i + 1).drop_last() =~= found.take(i as int));
            assert(found.take(i + 1).last() == all@[i as int]@);
        }
        let record = trim(&all[i]);
        if record.len() > 0 {
            out.push(to_string(&record));
            assert(texts(out@) =~= before.push(record@));
        }
        i += 1;
    }
    assert(found.take(all@.len() as int) =~= found);
    out
}

/// What a run of the tool comes to: its output, unless it failed and printed
/// nothing but white space; then the error holds what it wrote to its error
/// stream.
pub fn command_result(success: bool, stdout: String, stderr: &str) -> (r: Result<String, DevError>)
    ensures
        match r {
            Ok(out) => (success || trimmed(stdout@).len() > 0) && out == stdout,
            Err(DevError::Config(msg)) => !success && trimmed(stdout@).len() == 0 && msg@
                == "a3s-box error: "@ + stderr@,
            Err(_) => false,
        },
{
    if !success && trim(&chars_of(stdout.as_str())).len() == 0 {
        Err(DevError::Config("a3s-box error: ".to_owned().concat(stderr)))
    } else {
        Ok(stdout)
    }
}

/// The error for a tool that could not be run at all.
pub fn spawn_failure(detail: &str) -> (e: DevError)
    ensures
        e matches DevError::Config(msg) && msg@ == "failed to run a3s-box: "@ + detail@,
{
    DevError::Config("failed to run a3s-box: ".to_owned().concat(detail))
}

/// The arguments that list the containers as JSON: the running ones, or all
/// of them.
pub fn container_list_args(all: bool) -> (args: Vec<String>)
    ensures
        texts(args@) == if all {
            seq!["ps"@, "--format"@, "json"@, "-a"@]
        } else {
            seq!["ps"@, "--format"@, "json"@]
        },
{
    let mut args: Vec<String> = Vec::new();
    args.push("ps".to_owned());
    args.push("--format".to_owned());
    args.push("json".to_owned());
    if all {
        args.push("-a".to_owned());
        assert(texts(args@) =~= seq!["ps"@, "--format"@, "json"@, "-a"@]);
    } else {
        assert(texts(args@) =~= seq!["ps"@, "--format"@, "json"@]);
    }
    args
}

/// The arguments that show the last `tail` lines of a container's log.
pub fn container_logs_args(id: &str, tail: usize) -> (args: Vec<String>)
    ensures
        texts(args@) == seq!["logs"@, id@, "--tail"@, decimal_text(tail as nat)],
{
    let mut args: Vec<String> = Vec::new();
    args.push("logs".to_owned());
    args.push(id.to_owned());
    args.push("--tail".to_owned());
    args.push(number_text(tail as u64));
    assert(texts(args@) =~= seq!["logs"@, id@, "--tail"@, decimal_text(tail as nat)]);
    args
}

} // verus!
