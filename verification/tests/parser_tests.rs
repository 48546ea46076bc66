use log_viewer::parser::parse_log_vec;

fn verify_parsed_result(
    parsed_result: &Vec<Vec<String>>,
    num_expected_lines: usize,
    num_expected_cols: usize,
) {
    assert_eq!(parsed_result.len(), num_expected_lines);
    if num_expected_lines == 0 {
        return;
    }
    assert_eq!(parsed_result[0].len(), num_expected_cols);
}

#[test]
fn test_msi_parse() {
    let log_lines = vec![
        "an invalid line",
        "[1E78:1CCC][2023-09-03T16:46:28]i001: Burn v3.8.1128.0, Windows v6.3 (Build 9600: Service Pack 0), path: C:\\Program Files (x86)\\Epic Games\\Launcher\\Portal\\SelfUpdateStaging\\Install\\Portal\\Extras\\Redist\\LauncherPrereqSetup_x64.exe, cmdline: '/quiet /log \"C:/Users/behna/AppData/Local/EpicGamesLauncher/Saved/Logs/SelfUpdatePrereqInstall.log\" -burn.unelevated BurnPipe.{728D72EE-4979-4A05-84E7-FCB1B3712CDD} {529A9DC5-F441-4AF4-ACBC-8809762531C3} 20096'",
        "", // left empty on purpose to ensure the parser can handle empty lines gracefully
        "another invalid line",
        "[1E78:1CCC][2023-09-03T16:46:28]i000: Setting string variable 'WixBundleLog' to value 'C:/Users/behna/AppData/Local/EpicGamesLauncher/Saved/Logs/SelfUpdatePrereqInstall.log'",
        "another invalid line",
    ];

    let parsed_result = parse_log_vec(&log_lines, "");
    verify_parsed_result(&parsed_result, 2, 4);
}

#[test]
fn test_eaa_parse() {
    let log_lines = vec![
        "an invalid line",
        "720	[2023-12-26T06:41:43.537Z]	PID: 12196	TID: 13344	WARN    	(eax::components::contentLibrary::ContentLibraryComponent::Impl::refreshExternalEntitlements)	Skipping entitlement refresh due to missing a user session",
        "", // left empty on purpose to ensure the parser can handle empty lines gracefully
        "721	[2023-12-26T06:56:41.372Z]	PID: 12196	TID: 13344	INFO    	(eax::services::updater::UpdaterStateMachine::onUpdateCheckComplete)	Update is NOT available",
        "another invalid line",
    ];

    let parsed_result = parse_log_vec(&log_lines, "");
    verify_parsed_result(&parsed_result, 2, 4);
}

#[test]
fn test_eaa_vc_redist_parse() {
    let log_lines = vec![
        "an invalid line",
        "MSI (s) (38:48) [20:10:58:904]: Note: 1: 1707 ",
        "MSI (s) (38:48) [20:10:58:904]: Product: Microsoft Visual C++ 2013 x64 Minimum Runtime - 12.0.40664 -- Installation completed successfully.",
        "", // left empty on purpose to ensure the parser can handle empty lines gracefully
        "MSI (s) (38:48) [20:10:58:905]: Windows Installer installed the product. Product Name: Microsoft Visual C++ 2013 x64 Minimum Runtime - 12.0.40664. Product Version: 12.0.40664. Product Language: 1033. Manufacturer: Microsoft Corporation. Installation success or error status: 0.",
        "another invalid line",
    ];

    let parsed_result = parse_log_vec(&log_lines, "");
    verify_parsed_result(&parsed_result, 3, 4);
}

#[test]
fn test_eaa_igo_parse() {
    let log_lines = vec![
        "Process Information",                                                                // parser ignores this line
        "    PID: 1280",                                                                      // parser ignores this line
        "    EXE: C:\\Program Files\\Electronic Arts\\EA Desktop\\EA Desktop\\EADesktop.exe", // parser ignores this line
        "STARTED: Sat, Dec 23 2023 02:16:02 AM",                                              // parser ignores this line
        "an invalid line",
        "WARN	02:16:02 AM (    0)	 8300         IGOTelemetry.cpp:   77		Unable to retrieve telemetry prod id",
        "", // left empty on purpose to ensure the parser can handle empty lines gracefully
        "WARN	02:16:02 AM (    0)	 8300         IGOTelemetry.cpp:   87		Unable to retrieve telemetry timestamp",
        "another invalid line",
        "WARN	02:16:02 AM (    3)	 8300              DllMain.cpp: 2191		isIGOSharedMemoryNew=1",
    ];

    let parsed_result = parse_log_vec(&log_lines, "");
    verify_parsed_result(&parsed_result, 3, 4);
}

#[test]
fn test_eaa_igo_proxy_parse() {
    let log_lines = vec![
        "INFO	02:19:32 AM	16664	         Helpers.cpp:  628		Defaulf value for environment variable IGOLogDirPath is C:\\Users\\behna\\AppData\\Local\\Electronic Arts\\EA Desktop\\Logs",
        "Final value of the environment varialble IGOLogDirPath is C:\\Users\\behna\\AppData\\Local\\Electronic Arts\\EA Desktop\\Logs",   // parser ignores this line
        "INFO	02:19:32 AM	16664	             DX9.cpp:   68		Looking up DX9 Offsets (64 bits)",
        "INFO	02:19:32 AM	16664	             DX9.cpp:  106		Using display format idx=0 (format=0x00000016 / mode.Format=0x00000016)",
    ];

    let parsed_result = parse_log_vec(&log_lines, "");
    verify_parsed_result(&parsed_result, 3, 4);
}

#[test]
fn test_steam_parse() {
    let log_lines = vec![
        "[2023-12-10 23:18:08] Change number 21482018->21482152, apps: 0/113, packages: 0/7",
        "[2023-12-10 23:33:48] Change number 21482152->21482258, apps: 0/76, packages: 0/20",
        "an invalid line",
        "[2023-12-10 23:49:33] Change number 21482258->21482366, apps: 0/81, packages: 0/28",
        "", // left empty on purpose to ensure the parser can handle empty lines gracefully
        "", // left empty on purpose to ensure the parser can handle empty lines gracefully
        "[2023-12-23 13:44:05] Client version: 1702079146",
        "[2023-12-23 13:44:05] Packages changed: force all",
        "another invalid line",
        "[2023-12-23 13:44:05] Apps changed: force all",
    ];

    let parsed_result = parse_log_vec(&log_lines, "");
    verify_parsed_result(&parsed_result, 6, 4);
}

#[test]
fn test_epic_parse() {
    let log_lines = vec![
        "LogConfig: Setting CVar [[s.FlushStreamingOnExit:1]]",// parser ignores this line
        "LogInit: Object subsystem initialized",// parser ignores this line
        "LogConfig: Applying CVar settings from Section [ConsoleVariables] File [C:/Users/behna/AppData/Local/EpicGamesLauncher/Saved/Config/Windows/Engine.ini]",// parser ignores this line
        "[2023.10.08-05.40.07:182][  0]LogInit: Computer: DESKTOP-JQ0NCMI",
        "an invalid line",
        "[2023.10.08-05.40.07:182][  0]LogInit: CPU Page size=4096, Cores=4",
        "another invalid line",
        "[2023.10.08-05.40.07:182][  0]LogInit: High frequency timer resolution =10.000000 MHz",
        "another invalid line",
    ];

    let parsed_result = parse_log_vec(&log_lines, "");
    verify_parsed_result(&parsed_result, 3, 4);
}

#[test]
fn test_cef_parse() {
    let log_lines = vec![
        "an invalid line",
        "[0901/211250.717:ERROR:adm_helpers.cc(62)] Failed to query stereo recording.",
        "", // left empty on purpose to ensure the parser can handle empty lines gracefully
        "an invalid line",
        "[0901/211250.738:WARNING:mediasession.cc(347)] Duplicate id found. Reassigning from 104 to 125",
        "an invalid line",
        "[0901/211250.798:WARNING:stunport.cc(384)] Jingle:Port[000002172D841260:data:1:0:local:Net[any:0:0:0:x:x:x:x:x/0:Unknown]]: StunPort: stun host lookup received error 0",
        "an invalid line",
        "[1013/215308.845:ERROR:adm_helpers.cc(62)] Failed to query stereo recording.",
        "an invalid line",
        "[1013/215308.863:WARNING:mediasession.cc(347)] Duplicate id found. Reassigning from 104 to 125",
        "an invalid line",
        "[1013/215308.921:WARNING:stunport.cc(384)] Jingle:Port[0000018F02628910:data:1:0:local:Net[any:0:0:0:x:x:x:x:x/0:Unknown]]: StunPort: stun host lookup received error 0",
        "an invalid line",
    ];

    let parsed_result = parse_log_vec(&log_lines, "");
    verify_parsed_result(&parsed_result, 6, 4);
}

#[test]
fn reparsing_gives_identical_records() {
    let log_lines = vec![
        "an invalid line",
        "MSI (s) (38:48) [20:10:58:904]: Note: 1: 1707 ",
        "MSI (s) (38:48) [20:10:58:905]: done",
    ];
    let first = parse_log_vec(&log_lines, "setup.log");
    let second = parse_log_vec(&log_lines, "setup.log");
    assert_eq!(first, second);
}

#[test]
fn multiline_records_concatenate_without_separator() {
    // Only the first and last line match a format (Steam); the two middle
    // lines continue the first record with no separator inserted.
    let log_lines = vec![
        "[2023-12-23 13:44:05] start",
        "continuation1",
        "continuation2",
        "[2023-12-23 13:44:06] next",
    ];
    let parsed = parse_log_vec(&log_lines, "");
    assert_eq!(parsed.len(), 2);
    assert_eq!(parsed[0][3], "startcontinuation1continuation2");
    assert_eq!(parsed[1][3], "next");
    assert_eq!(parsed[0][1], "2023-12-23 13:44:05");
    assert_eq!(parsed[1][1], "2023-12-23 13:44:06");
}

#[test]
fn leading_unmatched_lines_produce_no_records() {
    let with_prefix = vec![
        "no format matches this",
        "nor this",
        "",
        "[2023-12-23 13:44:05] hello",
    ];
    let without_prefix = vec!["[2023-12-23 13:44:05] hello"];
    let a = parse_log_vec(&with_prefix, "");
    let b = parse_log_vec(&without_prefix, "");
    assert_eq!(a, b);
    assert_eq!(a.len(), 1);
    assert_eq!(a[0][3], "hello");
}

#[test]
fn record_columns_and_source_label() {
    let log_lines = vec!["[2023-12-23 13:44:05] hello"];
    let parsed = parse_log_vec(&log_lines, "/var/log/app/installer.log");
    assert_eq!(parsed.len(), 1);
    assert_eq!(parsed[0].len(), 4);
    assert_eq!(parsed[0][0], "installer.log");
    assert_eq!(parsed[0][1], "2023-12-23 13:44:05");
    assert_eq!(parsed[0][2], ""); // the Steam format has no level group
    assert_eq!(parsed[0][3], "hello");
}

#[test]
fn empty_input_yields_no_records() {
    let log_lines: Vec<&str> = vec![];
    let parsed = parse_log_vec(&log_lines, "x.log");
    assert_eq!(parsed.len(), 0);
}
