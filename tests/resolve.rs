use downloader::resolve::{decimal_string, numbered, pick_output_path};

fn taken_in(names: &'static [&'static str]) -> impl Fn(&String) -> bool {
    move |p: &String| names.iter().any(|n| p == n)
}

#[test]
fn decimal_of_small_and_large_numbers() {
    assert_eq!(decimal_string(0), "0");
    assert_eq!(decimal_string(7), "7");
    assert_eq!(decimal_string(10), "10");
    assert_eq!(decimal_string(9999), "9999");
    assert_eq!(decimal_string(u32::MAX), "4294967295");
}

#[test]
fn numbered_names_with_and_without_extension() {
    assert_eq!(numbered("a", "txt", 1), "a (1).txt");
    assert_eq!(numbered("archive.tar", "gz", 12), "archive.tar (12).gz");
    assert_eq!(numbered("README", "", 3), "README (3)");
}

#[test]
fn free_path_is_returned_as_is() {
    let r = pick_output_path("out", "a.txt", false, &taken_in(&[]));
    assert_eq!(r, "out/a.txt");
    let r = pick_output_path("out/", "a.txt", false, &taken_in(&[]));
    assert_eq!(r, "out/a.txt");
}

#[test]
fn overwrite_returns_existing_path() {
    let r = pick_output_path("out", "a.txt", true, &taken_in(&["out/a.txt", "out/a (1).txt"]));
    assert_eq!(r, "out/a.txt");
}

#[test]
fn collision_picks_smallest_free_number() {
    let r = pick_output_path("out", "a.txt", false, &taken_in(&["out/a.txt"]));
    assert_eq!(r, "out/a (1).txt");
    let r = pick_output_path(
        "out",
        "a.txt",
        false,
        &taken_in(&["out/a.txt", "out/a (1).txt", "out/a (2).txt", "out/a (4).txt"]),
    );
    assert_eq!(r, "out/a (3).txt");
}

#[test]
fn collision_without_extension() {
    let r = pick_output_path("out", "download", false, &taken_in(&["out/download"]));
    assert_eq!(r, "out/download (1)");
}

#[test]
fn collision_with_dot_file_keeps_whole_name_as_stem() {
    let r = pick_output_path("out", ".bashrc", false, &taken_in(&["out/.bashrc"]));
    assert_eq!(r, "out/.bashrc (1)");
}

#[test]
fn collision_on_name_without_stem_uses_file() {
    let r = pick_output_path("out", "..", false, &|p: &String| p == "out/..");
    assert_eq!(r, "out/file (1)");
}

#[test]
fn every_candidate_taken_falls_back_to_original() {
    let probes = std::cell::Cell::new(0u32);
    let r = pick_output_path("out", "a.txt", false, &|_p: &String| {
        probes.set(probes.get() + 1);
        true
    });
    assert_eq!(r, "out/a.txt");
    assert_eq!(probes.get(), 10000);
}
