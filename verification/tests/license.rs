use rdsgen::error::{ErrorKind, KeyError};
use rdsgen::types::{license_types, LicenseInfo};

#[test]
fn license_code_of_the_catalog() {
    let info = LicenseInfo::parse("029_10_2").unwrap();
    assert_eq!(info.chid, 29);
    assert_eq!(info.major_ver, 10);
    assert_eq!(info.minor_ver, 2);
    assert_eq!(info.description, "Windows Server 2022 Per Device");
    let copy = info.clone();
    assert_eq!(copy.chid, 29);
    assert_eq!(copy.description, info.description);
}

#[test]
fn license_code_outside_the_catalog() {
    let e = LicenseInfo::parse("999_1_1").unwrap_err();
    assert_eq!(e, KeyError::UnknownLicenseType);
    assert_eq!(e.kind(), ErrorKind::UnknownReference);
    // the same numbers written otherwise are another code
    assert_eq!(LicenseInfo::parse("29_10_2").unwrap_err(), KeyError::UnknownLicenseType);
    assert_eq!(LicenseInfo::parse("+029_10_2").unwrap_err(), KeyError::UnknownLicenseType);
}

#[test]
fn malformed_license_codes() {
    for code in ["", "029", "029_10", "029_10_2_1", "029-10-2"] {
        let e = LicenseInfo::parse(code).unwrap_err();
        assert_eq!(e, KeyError::LicenseFormat);
        assert_eq!(e.kind(), ErrorKind::InputFormat);
    }
    for code in ["a_b_c", "029_10_", "_10_2", "029_x_2", "029_10_2 ", "4294967296_1_1", "-1_1_1"] {
        let e = LicenseInfo::parse(code).unwrap_err();
        assert_eq!(e, KeyError::LicenseNumber);
        assert_eq!(e.kind(), ErrorKind::InputFormat);
    }
}

#[test]
fn every_catalog_entry_parses() {
    let entries = license_types();
    assert_eq!(entries.len(), 24);
    assert_eq!(entries[0], ("001_5_0", "Windows 2000 Per Device"));
    assert_eq!(entries[23], ("034_10_3", "Windows Server 2025 VDI Suite"));
    for (code, description) in entries {
        let info = LicenseInfo::parse(code).unwrap();
        assert_eq!(info.description, description);
        let parts: Vec<u32> = code.split('_').map(|p| p.parse().unwrap()).collect();
        assert_eq!(vec![info.chid, info.major_ver, info.minor_ver], parts);
    }
}
