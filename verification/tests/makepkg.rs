use rua::tarcheck::archive_format;
use rua::tarcheck::ArchiveFormat;
use rua::makepkg::read_makepkg_config;
use rua::makepkg::read_makepkg_output;
use rua::makepkg::MakepkgConfigError;

#[test]
fn config_with_pkgext() {
    let c = read_makepkg_config("CARCH=x86_64\0PKGEXT=.pkg.tar.zst\0SRCEXT=.src.tar.gz\0");
    assert!(c.ignored_locations.is_empty());
    assert_eq!(c.pkgext.unwrap(), ".pkg.tar.zst");
}

#[test]
fn config_last_pkgext_wins_and_locations_ignored() {
    let c = read_makepkg_config("PKGDEST=/tmp/p\0PKGEXT=.pkg.tar\0BUILDDIR=/b\0PKGEXT=.pkg.tar.xz\0LOGDEST=\0");
    assert_eq!(c.ignored_locations, vec!["PKGDEST".to_string(), "BUILDDIR".to_string(), "LOGDEST".to_string()]);
    assert_eq!(c.pkgext.unwrap(), ".pkg.tar.xz");
}

#[test]
fn config_value_may_hold_equals() {
    let c = read_makepkg_config("OPTIONS=a=b\0PKGEXT=.pkg.tar.gz");
    assert_eq!(c.pkgext.unwrap(), ".pkg.tar.gz");
}

#[test]
fn config_missing_pkgext() {
    let c = read_makepkg_config("SRCDEST=/s\0");
    assert_eq!(c.ignored_locations, vec!["SRCDEST".to_string()]);
    assert!(matches!(c.pkgext, Err(MakepkgConfigError::MissingPkgext)));
    let empty = read_makepkg_config("");
    assert!(empty.ignored_locations.is_empty());
    assert!(matches!(empty.pkgext, Err(MakepkgConfigError::MissingPkgext)));
}

#[test]
fn config_unsupported_pkgext_stops_reading() {
    let c = read_makepkg_config("SRCPKGDEST=/x\0PKGEXT=.pkg.tar.bz2\0PKGDEST=/y\0PKGEXT=.pkg.tar\0");
    assert_eq!(c.ignored_locations, vec!["SRCPKGDEST".to_string()]);
    match c.pkgext {
        Err(MakepkgConfigError::UnsupportedPkgext(v)) => assert_eq!(v, ".pkg.tar.bz2"),
        _ => panic!("expected an unsupported PKGEXT"),
    }
}

#[test]
fn config_malformed_line() {
    let c = read_makepkg_config("PKGEXT=.pkg.tar\0garbage\0PKGDEST=/x\0");
    assert!(c.ignored_locations.is_empty());
    match c.pkgext {
        Err(MakepkgConfigError::MalformedLine(l)) => assert_eq!(l, "garbage"),
        _ => panic!("expected a malformed line"),
    }
    let c = read_makepkg_config("A=1\0\0");
    match c.pkgext {
        Err(MakepkgConfigError::MalformedLine(l)) => assert_eq!(l, ""),
        _ => panic!("expected a malformed empty entry"),
    }
}

#[test]
fn output_must_be_utf8() {
    assert!(read_makepkg_output(vec![0xff, 0xfe]).is_none());
    let c = read_makepkg_output(b"PKGEXT=.pkg.tar.lzma\0".to_vec()).unwrap();
    assert_eq!(c.pkgext.unwrap(), ".pkg.tar.lzma");
}

#[test]
fn accepted_pkgext_gives_checkable_archive() {
    let cases = [
        (".pkg.tar", ArchiveFormat::Tar),
        (".pkg.tar.xz", ArchiveFormat::Xz),
        (".pkg.tar.lzma", ArchiveFormat::Xz),
        (".pkg.tar.gz", ArchiveFormat::Gzip),
        (".pkg.tar.gzip", ArchiveFormat::Gzip),
        (".pkg.tar.zst", ArchiveFormat::Zstd),
        (".pkg.tar.zstd", ArchiveFormat::Zstd),
    ];
    for (ext, format) in cases {
        let c = read_makepkg_config(&format!("PKGEXT={}\0", ext));
        let pkgext = c.pkgext.unwrap();
        assert_eq!(archive_format(&format!("foo-1.0-1-x86_64{}", pkgext)), Ok(format));
    }
}

#[test]
fn reading_to_end_decides_location_overrides() {
    assert!(read_makepkg_config("PKGEXT=.pkg.tar\0").read_to_end());
    assert!(read_makepkg_config("PKGDEST=/x\0").read_to_end());
    assert!(!read_makepkg_config("PKGEXT=.zip\0").read_to_end());
    assert!(!read_makepkg_config("junk\0").read_to_end());
}
