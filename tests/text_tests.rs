use filecopies::clock::modification_text;
use filecopies::browse::visible;
use filecopies::devices::{device_for_path, is_excluded, parse_volume_uuid, volume_label};
use filecopies::model::{AppError, DetectedDisk, DirEntry};
use filecopies::path::{extension, file_name, lower_extension, relative_path};

fn disk(id: &str, mount: &str) -> DetectedDisk {
    DetectedDisk {
        id: id.to_string(),
        label: String::new(),
        mount_point: mount.to_string(),
        total_bytes: 0,
        available_bytes: 0,
        is_removable: true,
    }
}

#[test]
fn longest_mount_wins() {
    let devs = vec![disk("root", "/"), disk("ext", "/Volumes/Ext"), disk("extb", "/Volumes/Ext/B")];
    assert_eq!(device_for_path(&devs, "/Volumes/Ext/B/x"), Some(("extb".to_string(), "/Volumes/Ext/B".to_string())));
    assert_eq!(device_for_path(&devs, "/Volumes/Ext/x"), Some(("ext".to_string(), "/Volumes/Ext".to_string())));
    assert_eq!(device_for_path(&devs, "/Users/me"), Some(("root".to_string(), "/".to_string())));
    assert_eq!(device_for_path(&devs[1..].to_vec(), "/Users/me"), None);
}

#[test]
fn excluded_mounts() {
    assert!(is_excluded("/System/Volumes/Data"));
    assert!(is_excluded("/Volumes/Recovery"));
    assert!(is_excluded("/dev"));
    assert!(!is_excluded("/Volumes/Backup"));
    assert!(!is_excluded("/"));
}

#[test]
fn path_pieces() {
    assert_eq!(relative_path("/Volumes/Ext/photos/a.JPG", "/Volumes/Ext"), "photos/a.JPG");
    assert_eq!(relative_path("/Users/me/a", "/"), "Users/me/a");
    assert_eq!(relative_path("/Volumes/Extra/a", "/Volumes/Ext"), "/Volumes/Extra/a");
    assert_eq!(relative_path("/Volumes/Ext", "/Volumes/Ext"), "");
    assert_eq!(file_name("/a/b/c.tar.gz"), "c.tar.gz");
    assert_eq!(extension("c.tar.gz"), "gz");
    assert_eq!(extension(".bashrc"), "");
    assert_eq!(extension("README"), "");
}

#[test]
fn lowercase_folds_case() {
    assert_eq!(lower_extension("/Volumes/A/photo.JPG"), "jpg");
    assert_eq!(lower_extension("/Volumes/A/.Hidden"), "");
}

#[test]
fn timestamp_text_formats_utc() {
    assert_eq!(modification_text(Some(0)), Some("1970-01-01 00:00:00".to_string()));
    assert_eq!(modification_text(Some(86_400 + 3_661)), Some("1970-01-02 01:01:01".to_string()));
    assert_eq!(modification_text(None), None);
}

#[test]
fn error_messages() {
    assert_eq!(AppError::General("x".to_string()).message(), "x");
    assert_eq!(AppError::Io("y".to_string()).message(), "IO error: y");
    assert_eq!(AppError::Db("z".to_string()).message(), "Database error: z");
    assert_eq!(AppError::Migrate("w".to_string()).message(), "Migrate error: w");
}

#[test]
fn uuid_from_diskutil_output() {
    let out = "   Device Identifier:        disk3s1\n   Volume Name:              Data\n   Volume UUID:              1A2B-3C4D\r\n   Disk / Partition UUID:    FFFF\n";
    assert_eq!(parse_volume_uuid(out), Some("1A2B-3C4D".to_string()));
    assert_eq!(parse_volume_uuid("  Disk / Partition UUID:   AB:CD\n"), Some("AB".to_string()));
    assert_eq!(parse_volume_uuid("nothing here\n"), None);
    assert_eq!(parse_volume_uuid(""), None);
}

#[test]
fn label_falls_back_to_mount_name() {
    assert_eq!(volume_label("", "/Volumes/Backup"), "Backup");
    assert_eq!(volume_label("Disk", "/Volumes/Backup"), "Disk");
}

#[test]
fn hidden_entries_are_left_out() {
    let e = |n: &str| DirEntry { name: n.to_string(), is_dir: false, size: 0, modified: None };
    let v = visible(vec![e(".git"), e("b"), e("a"), e("")]);
    let names: Vec<String> = v.into_iter().map(|d| d.name).collect();
    assert_eq!(names, vec!["b".to_string(), "a".to_string(), "".to_string()]);
}
