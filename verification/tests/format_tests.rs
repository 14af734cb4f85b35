use media_browser::format::{
    column_size_label, menu_size_label, menu_total, selection_stats, status_size_scale, type_label, ItemMeta,
    SizeScale, MIB,
};

#[test]
fn menu_sizes() {
    assert_eq!(menu_size_label(0), "0 KB");
    assert_eq!(menu_size_label(2047), "1 KB");
    assert_eq!(menu_size_label(1048576), "1024 KB");
    assert_eq!(menu_size_label(1048577), "1 MB");
    assert_eq!(menu_size_label(5 * MIB + 7), "5 MB");
}

#[test]
fn column_sizes() {
    assert_eq!(column_size_label(1023), "0 KB");
    assert_eq!(column_size_label(1024 * 1024), "1024 KB");
    assert_eq!(column_size_label(1025 * 1024 - 1), "1024 KB");
    assert_eq!(column_size_label(1025 * 1024), "1 MB");
    assert_eq!(column_size_label(3 * 1024 * 1024 * 1024), "3072 MB");
}

#[test]
fn type_labels() {
    assert_eq!(type_label(true, "jpg"), "Folder");
    assert_eq!(type_label(false, "jpg"), "JPG File");
    assert_eq!(type_label(false, ""), " File");
    assert_eq!(type_label(false, "straße"), "STRASSE File");
}

#[test]
fn status_scales() {
    assert_eq!(status_size_scale(0), SizeScale::Kilobytes(0));
    assert_eq!(status_size_scale(1048576), SizeScale::Kilobytes(1024));
    assert_eq!(status_size_scale(1048577), SizeScale::Megabytes);
    assert_eq!(status_size_scale(1073741824), SizeScale::Megabytes);
    assert_eq!(status_size_scale(1073741825), SizeScale::Gigabytes);
}

#[test]
fn stats_count_folders_and_file_sizes() {
    let items = vec![
        ItemMeta { is_dir: true, size: Some(4096) },
        ItemMeta { is_dir: false, size: Some(100) },
        ItemMeta { is_dir: false, size: None },
        ItemMeta { is_dir: false, size: Some(23) },
    ];
    let st = selection_stats(&items).unwrap();
    assert_eq!(st.folders, 1);
    assert_eq!(st.files, 3);
    assert_eq!(st.total, 123);
    assert_eq!(menu_total(&items), Some(4219));
}

#[test]
fn totals_that_overflow() {
    let items = vec![ItemMeta { is_dir: false, size: Some(u64::MAX) }, ItemMeta { is_dir: false, size: Some(1) }];
    assert!(selection_stats(&items).is_none());
    assert!(menu_total(&items).is_none());
    let dirs = vec![ItemMeta { is_dir: true, size: Some(u64::MAX) }, ItemMeta { is_dir: true, size: Some(1) }];
    assert_eq!(selection_stats(&dirs).map(|s| s.total), Some(0));
    assert!(menu_total(&dirs).is_none());
}
