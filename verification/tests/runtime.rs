use vrift::manifest::VnodeEntry;
use vrift::runtime::{farm_step, FarmStep};
use vrift::runtime::{link_farm_path, OverlayManager, RuntimeError};

#[test]
fn test_link_farm_path() {
    assert_eq!(link_farm_path("/"), None);
    assert_eq!(link_farm_path("/etc/config"), Some("etc/config"));
    assert_eq!(link_farm_path("//var/log"), Some("var/log"));
    assert_eq!(link_farm_path("rel/x"), Some("rel/x"));
}

#[test]
fn test_overlay_options() {
    let m = OverlayManager::new("/l".to_string(), "/u".to_string(), "/w".to_string(), "/m".to_string());
    assert_eq!(m.mount_options(), "lowerdir=/l,upperdir=/u,workdir=/w");
    assert_eq!(m.merged_dir(), "/m");
    assert_eq!(m.dirs_to_create(), vec!["/m", "/u", "/w"]);
}

#[test]
fn test_runtime_error_messages() {
    assert_eq!(RuntimeError::BlobNotFound("abc".to_string()).describe(), "Blob not found in CAS: abc");
    assert_eq!(RuntimeError::Overlay("bad".to_string()).describe(), "OverlayFS error: bad");
}

#[test]
fn test_farm_step_by_kind() {
    let file = VnodeEntry::new_file([1u8; 32], 3, 0, 0o644);
    let dir = VnodeEntry::new_directory(0, 0o755);
    let link = VnodeEntry::new_symlink([2u8; 32], 4, 0);
    assert!(matches!(farm_step("/", &dir), FarmStep::Skip));
    assert!(matches!(farm_step("/etc/config", &file), FarmStep::HardLink("etc/config")));
    assert!(matches!(farm_step("/var/log", &dir), FarmStep::MakeDir("var/log")));
    assert!(matches!(farm_step("//lnk", &link), FarmStep::Symlink("lnk")));
    let mut odd = file;
    odd.flags = 4;
    assert!(matches!(farm_step("/x", &odd), FarmStep::ParentOnly("x")));
}
