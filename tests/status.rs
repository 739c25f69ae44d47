use locallens::status::ModelStatus;

#[test]
fn status_strings() {
    assert_eq!(ModelStatus::Loading.as_str(), "loading");
    assert_eq!(ModelStatus::Ready.as_str(), "ready");
    assert_eq!(ModelStatus::Failed("no model".to_string()).as_str(), "failed:no model");
    assert_eq!(ModelStatus::Unavailable.as_str(), "unavailable");
}

#[test]
fn only_loading_settles() {
    let mut s = ModelStatus::Loading;
    s.finish_loading(ModelStatus::Loading);
    assert!(matches!(s, ModelStatus::Loading));
    s.finish_loading(ModelStatus::Ready);
    assert!(s.is_ready());
    s.finish_loading(ModelStatus::Unavailable);
    assert!(s.is_ready());
    let mut f = ModelStatus::Loading;
    f.finish_loading(ModelStatus::Failed("bad".to_string()));
    assert_eq!(f.as_str(), "failed:bad");
    assert!(!f.is_ready());
}

#[test]
fn load_outcomes() {
    assert!(matches!(ModelStatus::after_load(false, None), ModelStatus::Unavailable));
    assert!(matches!(ModelStatus::after_load(false, Some("x".to_string())), ModelStatus::Unavailable));
    assert!(ModelStatus::after_load(true, None).is_ready());
    assert_eq!(ModelStatus::after_load(true, Some("bad file".to_string())).as_str(), "failed:bad file");
}
