use waywallen::apply::{apply_route, resolve_renderer_choice, ApplyRefusal, ApplyRoute};
use waywallen::apply::{
    check_portal_entry, eq_ignore_ascii_case_exec, parse_entry_id, reported_renderer,
    PortalApplyResult, PortalEntryError,
};

#[test]
fn entry_ids_parse_like_i64() {
    assert_eq!(parse_entry_id("42"), Some(42));
    assert_eq!(parse_entry_id("+42"), Some(42));
    assert_eq!(parse_entry_id("-42"), Some(-42));
    assert_eq!(parse_entry_id("-9223372036854775808"), Some(i64::MIN));
    assert_eq!(parse_entry_id("9223372036854775807"), Some(i64::MAX));
    assert_eq!(parse_entry_id("9223372036854775808"), None);
    assert_eq!(parse_entry_id("-9223372036854775809"), None);
    assert_eq!(parse_entry_id("-+1"), None);
    assert_eq!(parse_entry_id("-"), None);
    assert_eq!(parse_entry_id(""), None);
    assert_eq!(parse_entry_id("abc"), None);
    for s in ["0", "-0", "17", "+", "1 ", "007"] {
        assert_eq!(parse_entry_id(s), s.parse::<i64>().ok());
    }
}

#[test]
fn portal_accepts_absolute_images_only() {
    assert_eq!(check_portal_entry("Image", "/pics/a.png"), Ok(()));
    assert_eq!(
        check_portal_entry("video", "/v.mp4"),
        Err(PortalEntryError::NotAnImage)
    );
    assert_eq!(
        check_portal_entry("IMAGE", "pics/a.png"),
        Err(PortalEntryError::RelativeResource)
    );
    assert!(eq_ignore_ascii_case_exec("ImAgE", "image"));
    assert!(!eq_ignore_ascii_case_exec("images", "image"));
}

#[test]
fn duplicate_apply_reports_first_active_renderer() {
    assert_eq!(
        reported_renderer(Some("b".into()), Some("a".into())),
        Some("b".to_string())
    );
    assert_eq!(reported_renderer(None, Some("a".into())), Some("a".to_string()));
    assert_eq!(reported_renderer(None, None), None);
    let result = PortalApplyResult {
        wallpaper_id: "7".into(),
        uri: "file:///pics/a.png".into(),
    };
    assert_eq!(result.clone(), result);
}

#[test]
fn renderer_choice_follows_request_and_type() {
    let types = Some(vec!["image".to_string(), "video".to_string()]);
    assert_eq!(
        resolve_renderer_choice(Some("img".into()), types.clone(), None, "video"),
        Ok("img".to_string())
    );
    assert_eq!(
        resolve_renderer_choice(Some("img".into()), types, None, "scene"),
        Err(ApplyRefusal::RendererTypeMismatch {
            renderer: "img".into(),
            ty: "scene".into()
        })
    );
    assert_eq!(
        resolve_renderer_choice(Some("nope".into()), None, Some("d".into()), "scene"),
        Err(ApplyRefusal::RendererNotFound("nope".into()))
    );
    assert_eq!(
        resolve_renderer_choice(Some(String::new()), None, Some("d".into()), "scene"),
        Ok("d".to_string())
    );
    assert_eq!(
        resolve_renderer_choice(None, None, None, "scene"),
        Err(ApplyRefusal::NoRendererForType("scene".into()))
    );
}

#[test]
fn apply_routes() {
    assert_eq!(apply_route(true, 0, 1, false, false), Err(ApplyRefusal::NoDisplayRegistered));
    assert_eq!(apply_route(true, 2, 0, false, false), Err(ApplyRefusal::NoDisplayRegistered));
    assert_eq!(apply_route(false, 0, 0, false, false), Ok(ApplyRoute::Shared));
    assert_eq!(apply_route(true, 2, 2, true, true), Ok(ApplyRoute::Retained));
    assert_eq!(apply_route(true, 2, 2, false, true), Ok(ApplyRoute::Duplicated));
}
