use siplot::render::save::{eq_ascii_case_insensitive, to_ascii_lower, SaveFormat};
use siplot::widget::actions::io::SaveTarget;

#[test]
fn save_target_from_extension_maps_csv_and_raster() {
    assert_eq!(SaveTarget::from_extension("csv"), Some(SaveTarget::CurveCsv));
    assert_eq!(SaveTarget::from_extension("CSV"), Some(SaveTarget::CurveCsv));
    assert_eq!(
        SaveTarget::from_extension("png"),
        Some(SaveTarget::Figure(SaveFormat::Png))
    );
    assert_eq!(
        SaveTarget::from_extension("PNG"),
        Some(SaveTarget::Figure(SaveFormat::Png))
    );
    assert_eq!(
        SaveTarget::from_extension("svg"),
        Some(SaveTarget::Figure(SaveFormat::Svg))
    );
    assert_eq!(
        SaveTarget::from_extension("eps"),
        Some(SaveTarget::Figure(SaveFormat::Eps))
    );
    assert_eq!(
        SaveTarget::from_extension("pdf"),
        Some(SaveTarget::Figure(SaveFormat::Pdf))
    );
    assert_eq!(
        SaveTarget::from_extension("jpeg"),
        Some(SaveTarget::Figure(SaveFormat::Jpeg))
    );
    assert_eq!(SaveTarget::from_extension("ps"), None);
    assert_eq!(SaveTarget::from_extension("xyz"), None);
}

#[test]
fn save_target_from_path_uses_extension() {
    assert_eq!(
        SaveTarget::from_path("/tmp/curve.csv"),
        Some(SaveTarget::CurveCsv)
    );
    assert_eq!(
        SaveTarget::from_path("/tmp/plot.png"),
        Some(SaveTarget::Figure(SaveFormat::Png))
    );
    assert_eq!(SaveTarget::from_path("/tmp/noext"), None);
}

#[test]
fn save_format_covers_every_extension_alias() {
    assert_eq!(SaveFormat::from_extension("ppm"), Some(SaveFormat::Ppm));
    assert_eq!(SaveFormat::from_extension("tif"), Some(SaveFormat::Tiff));
    assert_eq!(SaveFormat::from_extension("TIFF"), Some(SaveFormat::Tiff));
    assert_eq!(SaveFormat::from_extension("jpg"), Some(SaveFormat::Jpeg));
    assert_eq!(SaveFormat::from_extension("JpEg"), Some(SaveFormat::Jpeg));
    assert_eq!(SaveFormat::from_extension(""), None);
    assert_eq!(SaveFormat::from_extension("pngx"), None);
    assert_eq!(SaveFormat::from_extension("csv"), None);
}

#[test]
fn from_path_follows_std_path_extension() {
    // The extension is what follows the last dot of the file name.
    assert_eq!(
        SaveTarget::from_path("/tmp/a.tar.png"),
        Some(SaveTarget::Figure(SaveFormat::Png))
    );
    assert_eq!(SaveTarget::from_path("/tmp/a.png.gz"), None);
    // A leading dot names a hidden file, not an extension.
    assert_eq!(SaveTarget::from_path("/tmp/.csv"), None);
    // Dots in directory names do not count.
    assert_eq!(SaveTarget::from_path("/tmp/dir.csv/file"), None);
    // A trailing separator still names the file before it.
    assert_eq!(SaveTarget::from_path("/tmp/x.csv/"), Some(SaveTarget::CurveCsv));
    assert_eq!(SaveTarget::from_path(""), None);
    assert_eq!(SaveTarget::from_path(".."), None);
    assert_eq!(SaveTarget::from_path("name."), None);
    assert_eq!(
        SaveTarget::from_path("/data/run.1/CURVE.Csv"),
        Some(SaveTarget::CurveCsv)
    );
}

#[test]
fn ascii_case_helpers() {
    assert_eq!(to_ascii_lower('A'), 'a');
    assert_eq!(to_ascii_lower('z'), 'z');
    assert_eq!(to_ascii_lower('É'), 'É');
    assert!(eq_ascii_case_insensitive("TiFf", "tiff"));
    assert!(!eq_ascii_case_insensitive("tif", "tiff"));
}
