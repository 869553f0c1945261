use kml_merger::error::AppError;
use kml_merger::upload::{FieldAction, UploadForm};

#[test]
fn field_actions() {
    match UploadForm::field_action(Some("file0"), Some("Parcels.KML")) {
        FieldAction::ReadKmlFile { filename } => assert_eq!(filename, "Parcels.KML"),
        other => panic!("{:?}", other),
    }
    match UploadForm::field_action(Some("files[]"), None) {
        FieldAction::ReadKmlFile { filename } => assert_eq!(filename, "files[].kml"),
        other => panic!("{:?}", other),
    }
    match UploadForm::field_action(Some("file1"), Some("notes.txt")) {
        FieldAction::SkipFile { filename } => assert_eq!(filename, "notes.txt"),
        other => panic!("{:?}", other),
    }
    assert!(matches!(UploadForm::field_action(Some("outputFilename"), None), FieldAction::ReadOutputName));
    assert!(matches!(UploadForm::field_action(Some("styles"), None), FieldAction::ReadStyles));
    assert!(matches!(UploadForm::field_action(None, Some("x.kml")), FieldAction::Ignore));
    assert!(matches!(UploadForm::field_action(Some("Files"), Some("x.kml")), FieldAction::Ignore));
}

#[test]
fn form_gathers_fields() {
    let mut form = UploadForm::new();
    assert_eq!(form.output_filename, "merged");
    assert_eq!(form.download_filename(), "merged.kml");
    let a = FieldAction::ReadKmlFile { filename: "a.kml".to_string() };
    form.accept(&a, "<kml/>".to_string());
    form.accept(&FieldAction::SkipFile { filename: "b.txt".to_string() }, "x".to_string());
    form.accept(&FieldAction::ReadOutputName, "   ".to_string());
    assert_eq!(form.output_filename, "merged");
    form.accept(&FieldAction::ReadOutputName, "  my parcels (v2)\n".to_string());
    assert_eq!(form.output_filename, "my_parcels__v2_");
    form.accept(&FieldAction::ReadOutputName, " Çayır-ödev_1 ".to_string());
    assert_eq!(form.output_filename, "Çayır-ödev_1");
    form.accept(&FieldAction::ReadStyles, "{}".to_string());
    assert_eq!(form.styles_json.as_deref(), Some("{}"));
    assert_eq!(form.kml_files.len(), 1);
    assert_eq!(form.kml_files[0].name, "a.kml");
    assert_eq!(form.kml_files[0].content, "<kml/>");
    assert_eq!(form.content_disposition(), "attachment; filename=\"Çayır-ödev_1.kml\"");
    form.output_filename = String::new();
    assert_eq!(form.download_filename(), "merged.kml");
}

#[test]
fn answers() {
    assert_eq!(UploadForm::no_files_message(), "No KML files uploaded");
    let e = AppError::ValidationError("No KML files provided".to_string());
    assert_eq!(UploadForm::merge_error_message(&e), "Merge error: Validation error: No KML files provided");
}

#[test]
fn empty_form_is_refused() {
    let mut form = UploadForm::new();
    assert_eq!(form.rejection(), Some("No KML files uploaded".to_string()));
    form.accept(&FieldAction::ReadKmlFile { filename: "a.kml".to_string() }, "<kml/>".to_string());
    assert_eq!(form.rejection(), None);
}
