use rs_shapefile::parsers::cpg_parser::CpgParser;
use rs_shapefile::parsers::prj_parser::PrjParser;
use rs_shapefile::ShapefileError;

#[test]
fn test_parse_utf8_cpg() {
    let mut parser = CpgParser::new(b"UTF-8".to_vec());
    let label = parser.parse().unwrap();
    assert_eq!(label, b"UTF-8".to_vec());
    assert_eq!(encoding_rs::Encoding::for_label(&label), Some(encoding_rs::UTF_8));
}

#[test]
fn test_parse_shiftjis_cpg() {
    let mut parser = CpgParser::new(b"Shift_JIS".to_vec());
    let label = parser.parse().unwrap();
    assert_eq!(encoding_rs::Encoding::for_label(&label), Some(encoding_rs::SHIFT_JIS));
}

#[test]
fn cpg_label_is_trimmed() {
    let parser = CpgParser::new(b"  UTF-8\r\n".to_vec());
    assert_eq!(parser.label().unwrap(), "UTF-8");
    let mut parser = CpgParser::new(b"  UTF-8\r\n".to_vec());
    assert_eq!(encoding_rs::Encoding::for_label(&parser.parse().unwrap()), Some(encoding_rs::UTF_8));
}

#[test]
fn unknown_cpg_label_falls_back_to_shift_jis() {
    let mut parser = CpgParser::new(b"no-such-encoding".to_vec());
    let label = parser.parse().unwrap();
    assert_eq!(label, b"Shift_JIS".to_vec());
    assert_eq!(encoding_rs::Encoding::for_label(&label), Some(encoding_rs::SHIFT_JIS));
}

#[test]
fn invalid_utf8_cpg_is_io_error() {
    let mut parser = CpgParser::new(vec![0xFF, 0xFE]);
    assert!(matches!(parser.parse(), Err(ShapefileError::Io(_))));
}

#[test]
fn test_parse_prj_wkt() {
    let wkt = r#"GEOGCS["GCS_JGD_2011",DATUM["D_JGD_2011"]]"#;
    let mut parser = PrjParser::new(wkt.as_bytes().to_vec());
    let crs = parser.parse().unwrap();
    assert_eq!(crs.name(), Some("GCS_JGD_2011"));
}

#[test]
fn prj_keeps_whole_text() {
    let wkt = "PROJCS[\"X\",GEOGCS[\"Y\"]]\n";
    let mut parser = PrjParser::new(wkt.as_bytes().to_vec());
    let crs = parser.parse().unwrap();
    assert_eq!(crs.wkt, wkt);
    assert!(!crs.is_geographic());
}

#[test]
fn invalid_utf8_prj_is_io_error() {
    let mut parser = PrjParser::new(vec![0xC3]);
    assert!(matches!(parser.parse(), Err(ShapefileError::Io(_))));
}
