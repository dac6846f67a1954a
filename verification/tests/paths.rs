use eaa::config::Config;
use eaa::paths;

#[test]
fn app_dir_beside_executable() {
    assert_eq!(paths::get_app_dir("/opt/eaa/eaa-tauri"), "/opt/eaa");
    assert_eq!(paths::get_config_path("/opt/eaa/eaa-tauri"), "/opt/eaa/config.json");
    assert_eq!(Config::get_default_data_center("/opt/eaa/eaa-tauri"), "/opt/eaa/datacenter");
}

#[test]
fn app_dir_beside_macos_bundle() {
    let exe = "/Applications/Tools/EAA.app/Contents/MacOS/eaa-tauri";
    assert_eq!(paths::get_app_dir(exe), "/Applications/Tools");
    assert_eq!(paths::get_config_path(exe), "/Applications/Tools/config.json");
}

#[test]
fn shallow_macos_dir_stays() {
    assert_eq!(paths::get_app_dir("/MacOS/eaa"), "/MacOS");
}

#[test]
fn app_files_together() {
    let exe = "/opt/eaa/eaa-tauri";
    let config = paths::get_config_path(exe);
    let dc = Config::get_default_data_center(exe);
    let logs = eaa::logger::Logger::get_default_log_dir(exe);
    assert_eq!(config.strip_suffix("config.json"), dc.strip_suffix("datacenter"));
    assert_eq!(config.strip_suffix("config.json"), logs.strip_suffix("logs"));
}
