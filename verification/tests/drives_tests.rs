use media_browser::drives::{drive_items, drive_label_exec, DiskInfo};

fn d(name: &str, mount: &str) -> DiskInfo {
    DiskInfo { name: name.to_string(), mount: mount.to_string() }
}

#[test]
fn labels() {
    assert_eq!(drive_label_exec(&"".to_string(), &"C:\\".to_string()), "Local Disk (C:)");
    assert_eq!(drive_label_exec(&"Data".to_string(), &"D:\\\\".to_string()), "Data (D:)");
    assert_eq!(drive_label_exec(&"root".to_string(), &"/".to_string()), "root (/)");
    assert_eq!(drive_label_exec(&"usb".to_string(), &"\\".to_string()), "usb ()");
}

#[test]
fn one_item_per_mount_point_in_order() {
    let disks = vec![d("", "C:\\"), d("Data", "D:\\"), d("Other", "C:\\"), d("Usb", "E:\\")];
    let items = drive_items(&disks);
    let rows: Vec<(&str, &str)> = items.iter().map(|i| (i.path.as_str(), i.name.as_str())).collect();
    assert_eq!(rows, vec![("C:\\", "Local Disk (C:)"), ("D:\\", "Data (D:)"), ("E:\\", "Usb (E:)")]);
    assert!(items.iter().all(|i| i.children.is_none()));
}

#[test]
fn no_disks_no_items() {
    assert!(drive_items(&Vec::new()).is_empty());
}

#[test]
fn mount_points_equal_as_paths_are_listed_once() {
    let disks = vec![d("a", "/mnt/x"), d("b", "/mnt/x/"), d("c", "/mnt/y")];
    let items = drive_items(&disks);
    let paths: Vec<&str> = items.iter().map(|i| i.path.as_str()).collect();
    assert_eq!(paths, vec!["/mnt/x", "/mnt/y"]);
}
