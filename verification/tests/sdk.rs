use mcd::sdk::{latest_sdk, sdk_version};

#[test]
fn versions_in_folder_names() {
    assert_eq!(sdk_version("connectiq-sdk-lin-7.3.1-2024-09-23-df7b5816a"), Some((7, 3, 1)));
    assert_eq!(sdk_version("connectiq-sdk-lin-8.1.0"), Some((8, 1, 0)));
    assert_eq!(sdk_version("connectiq-sdk-mac-7.3.1"), None);
    assert_eq!(sdk_version("connectiq-sdk-lin-7.3"), None);
    assert_eq!(sdk_version("connectiq-sdk-lin-7.3.1.2"), None);
    // parts that are not numbers are left out
    assert_eq!(sdk_version("connectiq-sdk-lin-7.x.3.1-beta"), Some((7, 3, 1)));
    assert_eq!(sdk_version("connectiq-sdk-lin-"), None);
    assert_eq!(sdk_version("connectiq-sdk-li"), None);
}

#[test]
fn latest_of_several_sdks() {
    let names = vec![
        "connectiq-sdk-lin-7.3.1-2024".to_string(),
        "connectiq-sdk-lin-8.0.0-2025".to_string(),
        "notes".to_string(),
        "connectiq-sdk-lin-8.0.0-2025b".to_string(),
        "connectiq-sdk-lin-7.9.9".to_string(),
    ];
    // of two equal versions the later folder is taken
    assert_eq!(latest_sdk(&names), Some(3));
    assert_eq!(latest_sdk(&vec!["bin".to_string(), "lib".to_string()]), None);
    assert_eq!(latest_sdk(&vec![]), None);
}
