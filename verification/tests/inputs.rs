use livekit_analyzer::input::{
    detect_by_magic, detect_by_name, finish_selection, is_observability_file, select_input, zip_root_folder,
    InputError, InputSelection, InputType, NameCheck, TraceSource,
};

#[test]
fn inputs_known_by_name() {
    assert!(matches!(detect_by_name("x", false, false, None), NameCheck::Missing));
    assert!(matches!(detect_by_name("dir", true, true, None), NameCheck::Known(InputType::Folder(p)) if p == "dir"));
    assert!(matches!(detect_by_name("a.ZIP", true, false, Some("ZIP")), NameCheck::Known(InputType::ZipFile(_))));
    assert!(matches!(detect_by_name("a.pcapng", true, false, Some("pcapng")), NameCheck::Known(InputType::PcapFile(_))));
    assert!(matches!(detect_by_name("a.bin", true, false, Some("bin")), NameCheck::NeedsMagic));
    assert!(matches!(detect_by_name("a", true, false, None), NameCheck::NeedsMagic));
}

#[test]
fn inputs_known_by_magic() {
    assert!(matches!(detect_by_magic("f", &[0x50, 0x4B, 0x03, 0x04]), Ok(InputType::ZipFile(_))));
    assert!(matches!(detect_by_magic("f", &[0xd4, 0xc3, 0xb2, 0xa1]), Ok(InputType::PcapFile(_))));
    assert!(matches!(detect_by_magic("f", &[0x0a, 0x0d, 0x0d, 0x0a]), Ok(InputType::PcapFile(_))));
    match detect_by_magic("f.dat", &[1, 2, 3, 4]) {
        Err(e) => assert_eq!(e.message(), "Unknown file type: f.dat"),
        Ok(_) => panic!("expected an error"),
    }
}

#[test]
fn one_trace_source_and_one_capture() {
    let mut sel = InputSelection::new();
    assert!(select_input(&mut sel, InputType::Folder("d".to_string())).is_ok());
    assert!(select_input(&mut sel, InputType::PcapFile("c.pcap".to_string())).is_ok());
    assert!(matches!(sel.traces, Some(TraceSource::Folder(ref p)) if p == "d"));
    assert_eq!(sel.pcap, Some("c.pcap".to_string()));
    assert!(matches!(select_input(&mut sel, InputType::ZipFile("z".to_string())), Err(InputError::MultipleTraceSources)));
    assert!(matches!(select_input(&mut sel, InputType::Folder("e".to_string())), Err(InputError::MultipleTraceFolders)));
    assert!(matches!(select_input(&mut sel, InputType::PcapFile("c2".to_string())), Err(InputError::MultiplePcapFiles)));
    assert!(finish_selection(&sel).is_ok());
}

#[test]
fn empty_selection_is_refused() {
    let sel = InputSelection::new();
    match finish_selection(&sel) {
        Err(e) => assert_eq!(e.message(), "No valid input provided. Need a traces folder/ZIP and/or a PCAP file."),
        Ok(()) => panic!("expected an error"),
    }
}

#[test]
fn archive_root_and_data_files() {
    let names = vec!["readme.txt".to_string(), "export/logs.json".to_string(), "other/x".to_string()];
    assert_eq!(zip_root_folder(&names), Some("export".to_string()));
    assert_eq!(zip_root_folder(&vec!["a.json".to_string()]), None);
    assert!(is_observability_file("p_1_RM_2_logs.json"));
    assert!(is_observability_file("chat_history.json"));
    assert!(!is_observability_file("logs.txt"));
    assert!(!is_observability_file("metadata.json"));
}
