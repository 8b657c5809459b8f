use eir_svc::signals::profile::{
    describe, dmi_field, os_description, os_release_value, parse_cpu_model, registry_text,
    MachineProfile,
};
use eir_svc::signals::wmi::parse_total_kb;

fn unknown() -> MachineProfile {
    MachineProfile {
        product: None,
        display_version: None,
        build: None,
        ubr: None,
        manufacturer: None,
        model: None,
        cpu: None,
        ram_gb: None,
    }
}

fn whole_gb(ram: f32) -> Option<String> {
    Some(format!("{:.0}", ram))
}

fn check_windows_descriptions() {
    let p = MachineProfile {
        product: Some("Windows 10 Pro".into()),
        display_version: Some("24H2".into()),
        build: Some("26100".into()),
        ubr: Some(4652),
        manufacturer: Some("Dell Inc.".into()),
        model: Some("XPS 8960".into()),
        cpu: Some("13th Gen Intel(R) Core(TM) i7-13700   ".into()),
        ram_gb: whole_gb(31.7),
    };
    assert_eq!(
        describe(&p).as_deref(),
        Some(
            "Windows 11 Pro 24H2 (build 26100.4652), Dell Inc. XPS 8960, \
             13th Gen Intel(R) Core(TM) i7-13700, 32 GB RAM"
        )
    );
    let win10 = MachineProfile {
        product: Some("Windows 10 Home".into()),
        build: Some("19045".into()),
        ..unknown()
    };
    assert_eq!(
        describe(&win10).as_deref(),
        Some("Windows 10 Home (build 19045)")
    );
    assert_eq!(describe(&unknown()), None);
}

#[test]
fn profile_describes_windows_11_from_its_build_and_skips_missing_parts() {
    check_windows_descriptions();
}

#[test]
fn mod_describes_windows_11_from_its_build_and_skips_missing_parts() {
    check_windows_descriptions();
}

#[test]
fn describes_a_linux_machine_without_touching_the_windows_11_rewrite() {
    let p = MachineProfile {
        product: Some("Ubuntu 26.04.1 LTS".into()),
        manufacturer: Some("DigitalOcean".into()),
        model: Some("Droplet".into()),
        cpu: Some("AMD EPYC 7402P 24-Core Processor".into()),
        ram_gb: whole_gb(11.7),
        ..unknown()
    };
    assert_eq!(
        describe(&p).as_deref(),
        Some("Ubuntu 26.04.1 LTS, DigitalOcean Droplet, AMD EPYC 7402P 24-Core Processor, 12 GB RAM")
    );
}

#[test]
fn os_release_prefers_pretty_name_then_falls_back_to_name() {
    let sample = "NAME=\"Ubuntu\"\nVERSION=\"26.04.1 LTS\"\nPRETTY_NAME=\"Ubuntu 26.04.1 LTS\"\n";
    assert_eq!(
        os_release_value(sample, "PRETTY_NAME").as_deref(),
        Some("Ubuntu 26.04.1 LTS")
    );
    assert_eq!(os_release_value(sample, "NAME").as_deref(), Some("Ubuntu"));
    assert_eq!(os_release_value(sample, "MISSING"), None);
    assert_eq!(
        os_description(sample).as_deref(),
        Some("Ubuntu 26.04.1 LTS")
    );
    assert_eq!(os_description("NAME=Arch\n").as_deref(), Some("Arch"));
    assert_eq!(dmi_field(" Droplet\n").as_deref(), Some("Droplet"));
    assert_eq!(dmi_field("\n"), None);
}

#[test]
fn cpu_model_reads_the_first_model_name_line() {
    let sample =
        "processor\t: 0\nmodel name\t: AMD EPYC 7402P 24-Core Processor\ncache size\t: 512 KB\n";
    assert_eq!(
        parse_cpu_model(sample).as_deref(),
        Some("AMD EPYC 7402P 24-Core Processor")
    );
    assert_eq!(parse_cpu_model(""), None);
}

#[test]
fn total_ram_parses_kb_to_gb() {
    let sample = "MemTotal:       12345678 kB\nMemFree:        1000 kB\n";
    let gb = parse_total_kb(sample).expect("ram parsed") as f32 / 1_048_576.0;
    assert!((gb - 11.773).abs() < 0.01, "got {gb}");
    assert_eq!(parse_total_kb("garbage"), None);
}

#[test]
fn a_text_of_the_registry_is_cut_and_trimmed() {
    let units: Vec<u16> = " Contoso\0 \0\0junk".encode_utf16().collect();
    let filled = |bytes: usize| registry_text(units.clone(), bytes);
    assert_eq!(filled(24).as_deref(), Some("Contoso\0"));
    assert_eq!(filled(18).as_deref(), Some("Contoso"));
    assert_eq!(filled(9).as_deref(), Some("Con"), "an odd byte is left out");
    assert_eq!(filled(2), None);
    assert_eq!(filled(0), None);
    assert_eq!(
        registry_text(vec![0x41, 0], 400).as_deref(),
        Some("A"),
        "a count past the buffer takes all of it"
    );
    assert_eq!(registry_text(vec![0, 0], 4), None);
}
