use fastmail_cli::commands::download::{attachment_filename, attachment_name, resized_filename, safe_filename};

#[test]
fn test_safe_filename_strips_parent_traversal() {
    assert_eq!(safe_filename("../../../etc/passwd"), "passwd");
}

#[test]
fn test_safe_filename_strips_absolute_path() {
    assert_eq!(safe_filename("/absolute/path/file.pdf"), "file.pdf");
}

#[test]
fn test_safe_filename_dotdot_falls_back_to_attachment() {
    assert_eq!(safe_filename(".."), "attachment");
}

#[test]
fn test_safe_filename_empty_falls_back_to_attachment() {
    assert_eq!(safe_filename(""), "attachment");
}

#[test]
fn test_safe_filename_plain_name_preserved() {
    assert_eq!(safe_filename("normal.txt"), "normal.txt");
}

#[test]
fn safe_filename_follows_path_components() {
    assert_eq!(safe_filename("dir/file.txt/."), "file.txt");
    assert_eq!(safe_filename("dir//report.pdf//"), "report.pdf");
    assert_eq!(safe_filename("."), "attachment");
    assert_eq!(safe_filename("/"), "attachment");
    assert_eq!(safe_filename("a/.."), "attachment");
}

#[test]
fn safe_names_never_leave_the_directory() {
    for raw in ["../x", "/etc/shadow", "a/b/../../c", "..", ".", "", "./", "ok.txt", "x/..//"] {
        let name = safe_filename(raw);
        assert!(!name.contains('/'));
        assert!(!name.is_empty());
        assert_ne!(name, ".");
        assert_ne!(name, "..");
    }
}

#[test]
fn attachment_name_falls_back_when_there_is_no_component() {
    assert_eq!(attachment_name(Some("report.pdf".to_string())), "report.pdf");
    assert_eq!(attachment_name(None), "attachment");
}

#[test]
fn unnamed_attachments_are_named_by_blob() {
    assert_eq!(attachment_filename(None, "B123"), "B123.bin");
    assert_eq!(attachment_filename(Some("scan.png".to_string()), "B123"), "scan.png");
}

#[test]
fn images_resized_to_jpeg_get_a_jpg_name() {
    assert_eq!(resized_filename("photo.PNG", "image/jpeg"), "photo.jpg");
    assert_eq!(resized_filename("dir/photo.png", "image/jpeg"), "photo.jpg");
    assert_eq!(resized_filename("archive.tar.png", "image/jpeg"), "archive.tar.jpg");
    assert_eq!(resized_filename("noext", "image/jpeg"), "noext.jpg");
    assert_eq!(resized_filename(".hidden", "image/jpeg"), ".hidden.jpg");
    assert_eq!(resized_filename("photo.JPG", "image/jpeg"), "photo.JPG");
    assert_eq!(resized_filename("photo.jpeg", "image/jpeg"), "photo.jpeg");
    assert_eq!(resized_filename("photo.png", "image/png"), "photo.png");
}

#[test]
fn portable_names_keep_their_last_component() {
    assert_eq!(safe_filename("a//b/./"), "b");
    assert_eq!(safe_filename("a/b/.."), "attachment");
    assert_eq!(safe_filename("./"), "attachment");
}
