use linkd::files::{after_read, candidate_name, chunk_len, join, pick_dest, sanitize_name, unique_dest, PendingFiles};

#[test]
fn network_names_cannot_leave_the_download_directory() {
    assert_eq!(sanitize_name("../../.bashrc"), ".bashrc");
    assert_eq!(sanitize_name("/home/user/.ssh/authorized_keys"), "authorized_keys");
    assert_eq!(sanitize_name("a/b/c.txt"), "c.txt");
    assert_eq!(sanitize_name(""), "file");
    assert_eq!(sanitize_name(".."), "file");
    assert_eq!(sanitize_name("."), "file");
    assert_eq!(sanitize_name("/"), "file");
    assert_eq!(sanitize_name("Photo 2026-08-06.jpg"), "Photo 2026-08-06.jpg");
    assert_eq!(sanitize_name("rapport.final.pdf"), "rapport.final.pdf");
}

#[test]
fn sanitize_edge_cases() {
    assert_eq!(sanitize_name("a/.."), "file");
    assert_eq!(sanitize_name("dir/"), "dir");
    assert_eq!(sanitize_name("x/./"), "x");
    assert_eq!(sanitize_name("nul\0byte"), "nulbyte");
}

#[test]
fn candidates_number_the_stem() {
    assert_eq!(candidate_name("photo.jpg", 0), "photo.jpg");
    assert_eq!(candidate_name("photo.jpg", 1), "photo (1).jpg");
    assert_eq!(candidate_name("a.b.c", 12), "a.b (12).c");
    assert_eq!(candidate_name("README", 3), "README (3)");
    assert_eq!(candidate_name(".bashrc", 2), " (2).bashrc");
}

#[test]
fn join_adds_one_slash() {
    assert_eq!(join("/tmp", "a"), "/tmp/a");
    assert_eq!(join("/tmp/", "a"), "/tmp/a");
    assert_eq!(join("", "a"), "a");
}

#[test]
fn unique_dest_picks_a_free_name() {
    let missing = "/nonexistent-linkd-dir";
    assert_eq!(unique_dest(missing, "../x.txt"), "/nonexistent-linkd-dir/x.txt");
    assert_eq!(unique_dest("/", "tmp"), "/tmp (1)");
}

#[test]
fn pending_files_are_taken_once() {
    let mut p = PendingFiles::new();
    let (id, name) = p.offer("/home/u/Pictures/cat.png");
    assert_eq!(name, "cat.png");
    assert_eq!(id.len(), 16);
    let (id2, name2) = p.offer("/");
    assert_eq!(name2, "file");
    assert_ne!(id, id2);
    assert_eq!(p.take(&id), Some("/home/u/Pictures/cat.png".to_string()));
    assert_eq!(p.take(&id), None);
    assert_eq!(p.take(&id2), Some("/".to_string()));
}

#[test]
fn files_travel_in_chunks() {
    assert_eq!(chunk_len(10), 10);
    assert_eq!(chunk_len(65536), 65536);
    assert_eq!(chunk_len(1 << 40), 65536);
    assert_eq!(after_read(100, 40), Ok(60));
    assert_eq!(after_read(100, 100), Ok(0));
    assert_eq!(after_read(100, 0), Err(100));
}

#[test]
fn pick_dest_takes_the_first_free_candidate() {
    assert_eq!(pick_dest("/d", "a.txt", &[false]), "/d/a.txt");
    assert_eq!(pick_dest("/d", "a.txt", &[true, false]), "/d/a (1).txt");
    assert_eq!(pick_dest("/d/", "a.tar.gz", &[true, true, true, false]), "/d/a.tar (3).gz");
    assert_eq!(pick_dest("/d", "notes", &[true, false, false]), "/d/notes (1)");
    assert_eq!(pick_dest("/d", "../x", &[true, false]), "/d/x (1)");
}

#[test]
fn pick_dest_falls_back_to_the_plain_name_when_all_are_taken() {
    assert_eq!(pick_dest("/d", "a.txt", &[true, true, true]), "/d/a.txt");
    assert_eq!(pick_dest("/d", "a.txt", &[]), "/d/a.txt");
    assert_eq!(pick_dest("/d", "a.txt", &vec![true; 10000]), "/d/a.txt");
}
