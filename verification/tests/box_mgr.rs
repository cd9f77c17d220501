use a3s_dev::box_mgr::{
    cell_at, command_result, container_list_args, container_logs_args, count_of, networks_of,
    parse_info, parse_row, parse_table, records, spawn_failure, volumes_of, BoxContainer, BoxImage,
    BoxInfo, BoxNetwork, BoxVolume,
};
use a3s_dev::error::DevError;

fn row(cells: &[&str]) -> Vec<String> {
    cells.iter().map(|c| c.to_string()).collect()
}

#[test]
fn table_skips_the_header_and_blank_lines() {
    let text = "NAME    DRIVER   SUBNET\nnet1    bridge   10.0.0.0/24\n\n   \nnet2    host     -\n";
    assert_eq!(
        parse_table(text),
        vec![row(&["net1", "bridge", "10.0.0.0/24"]), row(&["net2", "host", "-"])]
    );
}

#[test]
fn table_cells_may_hold_single_spaces() {
    let text = "NAME  STATUS\nmy net  Up 2 hours\n";
    assert_eq!(parse_table(text), vec![row(&["my net", "Up 2 hours"])]);
}

#[test]
fn table_cells_are_trimmed_after_an_odd_number_of_spaces() {
    let text = "H\na   b     c\n";
    assert_eq!(parse_table(text), vec![row(&["a", "b", "c"])]);
}

#[test]
fn table_of_nothing_is_empty() {
    assert_eq!(parse_table(""), Vec::<Vec<String>>::new());
    assert_eq!(parse_table("ONLY  HEADER"), Vec::<Vec<String>>::new());
    assert_eq!(parse_table("ONLY  HEADER\n"), Vec::<Vec<String>>::new());
}

#[test]
fn table_handles_carriage_returns() {
    assert_eq!(parse_table("H\r\na  b\r\n"), vec![row(&["a", "b"])]);
}

#[test]
fn row_is_parted_into_twenty_parts_at_most() {
    let cells: Vec<String> = (0..25).map(|i| format!("c{i}")).collect();
    let line: Vec<char> = cells.join("  ").chars().collect();
    let got = parse_row(&line);
    assert_eq!(got.len(), 20);
    assert_eq!(got[0], "c0");
    assert_eq!(got[18], "c18");
    assert_eq!(got[19], "c19  c20  c21  c22  c23  c24");
}

#[test]
fn networks_take_their_columns_in_order() {
    let table = vec![
        row(&["net1", "bridge", "10.0.0.0/24", "10.0.0.1", "strict", "3"]),
        row(&["net2", "host"]),
    ];
    let nets = networks_of(&table);
    assert_eq!(nets.len(), 2);
    assert_eq!(nets[0].name, "net1");
    assert_eq!(nets[0].driver, "bridge");
    assert_eq!(nets[0].subnet, "10.0.0.0/24");
    assert_eq!(nets[0].gateway, "10.0.0.1");
    assert_eq!(nets[0].isolation, "strict");
    assert_eq!(nets[0].endpoints, "3");
    assert_eq!(nets[1].name, "net2");
    assert_eq!(nets[1].driver, "host");
    assert_eq!(nets[1].subnet, "");
    assert_eq!(nets[1].endpoints, "");
}

#[test]
fn volumes_take_their_columns_in_order() {
    let table = vec![row(&["local", "data", "/var/lib/data", "web"]), row(&[])];
    let vols = volumes_of(&table);
    assert_eq!(vols.len(), 2);
    assert_eq!(vols[0].driver, "local");
    assert_eq!(vols[0].name, "data");
    assert_eq!(vols[0].mount_point, "/var/lib/data");
    assert_eq!(vols[0].in_use_by, "web");
    assert_eq!(vols[1].driver, "");
    assert_eq!(vols[1].in_use_by, "");
}

#[test]
fn cell_beyond_the_row_is_empty() {
    let r = row(&["a", "b"]);
    assert_eq!(cell_at(&r, 1), "b");
    assert_eq!(cell_at(&r, 2), "");
}

#[test]
fn info_is_read_line_by_line() {
    let text = "a3s-box version 0.4.1\n  Virtualization: Apple HVF \nHome directory: /Users/me/.a3s\nBoxes: 3 total, 1 running\nImages: 5 cached (1.2 GB)\nSomething: else\n";
    let info = parse_info(text);
    assert_eq!(info.version, "0.4.1");
    assert_eq!(info.virtualization, "Apple HVF");
    assert_eq!(info.home, "/Users/me/.a3s");
    assert_eq!(info.boxes_total, 3);
    assert_eq!(info.boxes_running, 1);
    assert_eq!(info.images_cached, "5 cached (1.2 GB)");
}

#[test]
fn info_of_nothing_is_the_default() {
    let info = parse_info("");
    assert_eq!(info.version, "");
    assert_eq!(info.boxes_total, 0);
    assert_eq!(info.boxes_running, 0);
    let d = BoxInfo::default();
    assert_eq!((d.version.as_str(), d.home.as_str(), d.boxes_total), ("", "", 0));
}

#[test]
fn info_boxes_without_numbers_count_as_zero() {
    let info = parse_info("Boxes: many total, x running");
    assert_eq!((info.boxes_total, info.boxes_running), (0, 0));
    let info = parse_info("Boxes: 7 total\nBoxes: 9");
    assert_eq!((info.boxes_total, info.boxes_running), (9, 0));
    let info = parse_info("Boxes: 4 total, 2 running\nBoxes: 5 total");
    assert_eq!((info.boxes_total, info.boxes_running), (5, 2));
    let info = parse_info("Boxes: 4294967296 total, 4294967295 running");
    assert_eq!((info.boxes_total, info.boxes_running), (0, 4294967295));
}

#[test]
fn info_prefix_needs_its_space() {
    let info = parse_info("Images:5\nImages: \nVirtualization:x");
    assert_eq!(info.images_cached, "");
    assert_eq!(info.virtualization, "");
}

#[test]
fn later_line_replaces_earlier() {
    let info = parse_info("Images: 1\nImages: 2");
    assert_eq!(info.images_cached, "2");
}

#[test]
fn count_is_the_first_word_as_a_number() {
    assert_eq!(count_of(&" 12 total".chars().collect()), 12);
    assert_eq!(count_of(&"+12".chars().collect()), 12);
    assert_eq!(count_of(&"total 12".chars().collect()), 0);
    assert_eq!(count_of(&"".chars().collect()), 0);
    assert_eq!(count_of(&"-1".chars().collect()), 0);
}

#[test]
fn records_are_the_trimmed_nonblank_lines() {
    let text = "{\"ID\":\"1\"}\n\n   {\"ID\":\"2\"}  \r\n \n";
    assert_eq!(records(text), vec!["{\"ID\":\"1\"}".to_string(), "{\"ID\":\"2\"}".to_string()]);
    assert!(records("  \n \n").is_empty());
    assert!(records("").is_empty());
}

#[test]
fn command_output_counts_unless_it_failed_silently() {
    assert_eq!(command_result(true, "out".to_string(), "err").ok(), Some("out".to_string()));
    assert_eq!(command_result(true, "".to_string(), "err").ok(), Some("".to_string()));
    assert_eq!(command_result(false, "partial".to_string(), "err").ok(), Some("partial".to_string()));
    match command_result(false, " \n".to_string(), "no such box") {
        Err(DevError::Config(msg)) => assert_eq!(msg, "a3s-box error: no such box"),
        _ => panic!("an error was expected"),
    }
}

#[test]
fn spawn_failure_says_why() {
    match spawn_failure("No such file or directory (os error 2)") {
        DevError::Config(msg) => {
            assert_eq!(msg, "failed to run a3s-box: No such file or directory (os error 2)")
        }
        _ => panic!("a configuration error was expected"),
    }
}

#[test]
fn defaults_are_empty() {
    let c = BoxContainer::default();
    assert_eq!((c.id.as_str(), c.name.as_str(), c.command.as_str()), ("", "", ""));
    let i = BoxImage::default();
    assert_eq!((i.repository.as_str(), i.reference.as_str()), ("", ""));
    let n = BoxNetwork::default();
    assert_eq!((n.name.as_str(), n.endpoints.as_str()), ("", ""));
    let v = BoxVolume::default();
    assert_eq!((v.driver.as_str(), v.in_use_by.as_str()), ("", ""));
}

#[test]
fn listing_arguments_ask_for_json() {
    assert_eq!(container_list_args(false), row(&["ps", "--format", "json"]));
    assert_eq!(container_list_args(true), row(&["ps", "--format", "json", "-a"]));
    assert_eq!(container_logs_args("abc", 50), row(&["logs", "abc", "--tail", "50"]));
    assert_eq!(container_logs_args("abc", 0), row(&["logs", "abc", "--tail", "0"]));
}
