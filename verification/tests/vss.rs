use ckbackup::config::Create;
use ckbackup::vss::{
    available_drive_letters, extract_drive_letters, parse_vars, shadow_devices,
    shadow_set_delete_arg, shadowed_sources, vshadow_args, Stage, Vss, VssAction, VssError,
    VssEvent,
};

fn strings(v: &[&str]) -> Vec<String> {
    v.iter().map(|s| s.to_string()).collect()
}

fn create_with(sources: &[&str], shadow: Option<bool>) -> Create {
    Create { sources: strings(sources), volume_shadow_copy: shadow, args: None }
}

fn script(devices: &[&str]) -> Vec<String> {
    let mut lines = vec!["REM vshadow script".to_string(), "SET SHADOW_SET_ID={set-id}".to_string()];
    for (i, d) in devices.iter().enumerate() {
        lines.push(format!("SET SHADOW_ID_{}={{id-{}}}", i + 1, i + 1));
        lines.push(format!("SET SHADOW_DEVICE_{}={}", i + 1, d));
    }
    lines
}

#[test]
fn drive_letters_are_taken_once_each() {
    let sources = strings(&["C:\\a", "d:\\b", "C:\\c", "\\\\srv\\share", "e", "", "x:"]);
    assert_eq!(extract_drive_letters(&sources), vec!['C', 'd', 'x']);
}

#[test]
fn free_drive_letters_follow_the_mask() {
    let free = available_drive_letters(0b1111);
    assert_eq!(free.len(), 22);
    assert_eq!(free[0], 'E');
    assert_eq!(free[21], 'Z');
    assert_eq!(available_drive_letters(0).len(), 26);
    assert!(available_drive_letters((1 << 26) - 1).is_empty());
    assert_eq!(available_drive_letters(!(1u32 << 7)), vec!['H']);
}

#[test]
fn vshadow_is_asked_for_each_drive() {
    assert_eq!(vshadow_args(&vec!['C', 'D']), strings(&["-p", "-nw", "-script=vss-vars.cmd", "C:", "D:"]));
    assert_eq!(vshadow_args(&vec![]), strings(&["-p", "-nw", "-script=vss-vars.cmd"]));
}

#[test]
fn script_variables_are_read_from_set_lines() {
    let lines = strings(&["REM x", "SET A=1", "SET B=two=three", "SETX=y", "set c=d", "SET EMPTY="]);
    let vars = parse_vars(&lines);
    assert_eq!(
        vars,
        vec![
            ("A".to_string(), "1".to_string()),
            ("B".to_string(), "two".to_string()),
            ("".to_string(), "y".to_string()),
            ("EMPTY".to_string(), "".to_string()),
        ]
    );
}

#[test]
fn shadow_devices_are_the_shadow_device_variables() {
    let vars = parse_vars(&script(&["\\\\?\\dev1", "\\\\?\\dev2"]));
    assert_eq!(vars[0], ("SHADOW_SET_ID".to_string(), "{set-id}".to_string()));
    assert_eq!(shadow_devices(&vars), strings(&["\\\\?\\dev1", "\\\\?\\dev2"]));
    assert_eq!(shadow_set_delete_arg(&vars), "-dx={set-id}");
}

#[test]
fn nothing_happens_without_shadow_copies() {
    let vss = Vss::new();
    let (setup, action) = vss.start_create(&create_with(&["C:\\a"], None));
    assert_eq!(setup.stage, Stage::Done);
    assert!(matches!(action, VssAction::Finished(Ok(()))));
    let (_, action) = vss.start_create(&create_with(&["C:\\a"], Some(false)));
    assert!(matches!(action, VssAction::Finished(Ok(()))));
}

#[test]
fn shadow_copies_are_mounted_on_free_letters() {
    let mut vss = Vss::new();
    let (mut setup, action) = vss.start_create(&create_with(&["C:\\data", "D:\\more", "C:\\other"], Some(true)));
    assert!(matches!(action, VssAction::RemovePrevious));
    assert!(matches!(vss.step(&mut setup, VssEvent::PreviousRemoved), VssAction::QueryLogicalDrives));
    match vss.step(&mut setup, VssEvent::LogicalDrives(0b1111)) {
        VssAction::RunVshadow(args) => assert_eq!(args, strings(&["-p", "-nw", "-script=vss-vars.cmd", "C:", "D:"])),
        _ => panic!("vshadow expected"),
    }
    match vss.step(&mut setup, VssEvent::ShadowScript(script(&["dev1", "dev2"]))) {
        VssAction::DefineDrive(device, target) => {
            assert_eq!(device, "E:");
            assert_eq!(target, "dev1");
        }
        _ => panic!("define expected"),
    }
    match vss.step(&mut setup, VssEvent::DriveDefined(true)) {
        VssAction::DefineDrive(device, target) => {
            assert_eq!(device, "F:");
            assert_eq!(target, "dev2");
        }
        _ => panic!("define expected"),
    }
    assert!(matches!(vss.step(&mut setup, VssEvent::DriveDefined(true)), VssAction::Finished(Ok(()))));
    assert_eq!(vss.get_mapped_drives(), vec![('C', 'E'), ('D', 'F')]);
    assert_eq!(vss.removal_devices(), strings(&["E:", "F:"]));
}

#[test]
fn too_few_free_letters_is_an_error() {
    let mut vss = Vss::new();
    let (mut setup, _) = vss.start_create(&create_with(&["C:\\a", "D:\\b"], Some(true)));
    vss.step(&mut setup, VssEvent::PreviousRemoved);
    let action = vss.step(&mut setup, VssEvent::LogicalDrives(!(1u32 << 25)));
    assert!(matches!(action, VssAction::Finished(Err(VssError::NotEnoughDriveLetters))));
    assert_eq!(
        VssError::NotEnoughDriveLetters.message(),
        "Not enough available drive letters to map to shadow drives."
    );
}

#[test]
fn missing_shadow_devices_is_an_error() {
    let mut vss = Vss::new();
    let (mut setup, _) = vss.start_create(&create_with(&["C:\\a", "D:\\b"], Some(true)));
    vss.step(&mut setup, VssEvent::PreviousRemoved);
    vss.step(&mut setup, VssEvent::LogicalDrives(0));
    let action = vss.step(&mut setup, VssEvent::ShadowScript(script(&["dev1"])));
    assert!(matches!(action, VssAction::Finished(Err(VssError::MissingShadowDevices))));
    assert_eq!(VssError::MissingShadowDevices.message(), "Could not create shadow devices for all drives.");
}

#[test]
fn failed_mount_is_an_error_and_keeps_earlier_mounts() {
    let mut vss = Vss::new();
    let (mut setup, _) = vss.start_create(&create_with(&["C:\\a", "D:\\b"], Some(true)));
    vss.step(&mut setup, VssEvent::PreviousRemoved);
    vss.step(&mut setup, VssEvent::LogicalDrives(0b11));
    vss.step(&mut setup, VssEvent::ShadowScript(script(&["dev1", "dev2"])));
    vss.step(&mut setup, VssEvent::DriveDefined(true));
    let action = vss.step(&mut setup, VssEvent::DriveDefined(false));
    assert!(matches!(action, VssAction::Finished(Err(VssError::DefineFailed))));
    assert_eq!(vss.get_mapped_drives(), vec![('C', 'C')]);
    assert_eq!(VssError::DefineFailed.message(), "Could not create drive letter for shadow device.");
}

#[test]
fn no_drive_letters_means_nothing_to_mount() {
    let mut vss = Vss::new();
    let (mut setup, _) = vss.start_create(&create_with(&["\\\\srv\\share\\x"], Some(true)));
    vss.step(&mut setup, VssEvent::PreviousRemoved);
    match vss.step(&mut setup, VssEvent::LogicalDrives(0)) {
        VssAction::RunVshadow(args) => assert_eq!(args.len(), 3),
        _ => panic!("vshadow expected"),
    }
    let action = vss.step(&mut setup, VssEvent::ShadowScript(script(&[])));
    assert!(matches!(action, VssAction::Finished(Ok(()))));
    assert!(vss.get_mapped_drives().is_empty());
}

#[test]
fn remounting_a_drive_replaces_its_letter() {
    let mut vss = Vss::new();
    for mask in [0b11u32, 0b111] {
        let (mut setup, _) = vss.start_create(&create_with(&["C:\\a"], Some(true)));
        vss.step(&mut setup, VssEvent::PreviousRemoved);
        vss.step(&mut setup, VssEvent::LogicalDrives(mask));
        vss.step(&mut setup, VssEvent::ShadowScript(script(&["dev"])));
        vss.step(&mut setup, VssEvent::DriveDefined(true));
    }
    assert_eq!(vss.get_mapped_drives(), vec![('C', 'D')]);
}

#[test]
fn sources_are_read_from_their_shadow_drives() {
    let sources = strings(&["C:\\data", "D:\\x"]);
    assert_eq!(
        shadowed_sources(&sources, &vec![('C', 'E')]),
        strings(&["/cygdrive/e/data", "/cygdrive/d/x"])
    );
    assert_eq!(shadowed_sources(&sources, &vec![]), strings(&["/cygdrive/c/data", "/cygdrive/d/x"]));
}
