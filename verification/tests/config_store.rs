use image_manip::config::{load_or_create, Config, LoadOutcome, SidecarRead};

#[test]
fn default_config_values() {
    let c = Config::default();
    assert_eq!(c.largura, 0);
    assert_eq!(c.altura, 0);
    assert!(!c.manter_proporcao);
    assert!(!c.espelhamento_horizontal);
    assert!(!c.espelhamento_vertical);
    assert_eq!(c.vermelho, 0);
    assert_eq!(c.verde, 0);
    assert_eq!(c.azul, 0);
    assert_eq!(c.extensao, "jpg".to_string());
}

#[test]
fn parsed_config_is_used_as_is() {
    let c = Config {
        largura: 640,
        altura: 480,
        manter_proporcao: true,
        espelhamento_horizontal: true,
        espelhamento_vertical: false,
        vermelho: 3,
        verde: -2,
        azul: 0,
        extensao: "png".to_string(),
    };
    let (used, outcome) = load_or_create(SidecarRead::Parsed(c.clone()));
    assert_eq!(used, c);
    assert_eq!(outcome, LoadOutcome::Loaded);
    assert!(!outcome.needs_persist());
}

#[test]
fn malformed_sidecar_falls_back_to_default() {
    let (used, outcome) = load_or_create(SidecarRead::Malformed);
    assert_eq!(used, Config::default());
    assert_eq!(outcome, LoadOutcome::CorruptFallback);
    assert!(outcome.needs_persist());
}

#[test]
fn missing_sidecar_falls_back_to_default() {
    let (used, outcome) = load_or_create(SidecarRead::Missing);
    assert_eq!(used, Config::default());
    assert_eq!(outcome, LoadOutcome::IoErrorFallback);
    assert!(outcome.needs_persist());
}
