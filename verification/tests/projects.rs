use stayhydated::projects::{
    localized_project_options, localized_stayhydated_project_options, project_lockup_class,
    project_options_have_same_content, project_select_option_class, project_to_open,
    stayhydated_project_options, trigger_project, ProjectSelectMessage, StayhydatedProject,
};
use stayhydated::site::{ES_FLUENT_SITE_URL, KORUMA_SITE_URL};

#[test]
fn project_options_use_localized_descriptions() {
    let projects = localized_project_options(
        StayhydatedProject::Stayhydated.option_with("stayhydated", "项目索引", "/zh/"),
        "Rust 校验".to_string(),
        "Rust 本地化".to_string(),
    );

    assert_eq!(projects[0].description, "项目索引");
    assert_eq!(projects[0].href, "/zh/");
    assert_eq!(projects[1].description, "Rust 校验");
    assert_eq!(projects[1].href, KORUMA_SITE_URL);
    assert_eq!(projects[2].description, "Rust 本地化");
    assert_eq!(projects[2].href, ES_FLUENT_SITE_URL);
}

#[test]
fn default_project_options() {
    let options = stayhydated_project_options();
    let ids: Vec<&str> = options.iter().map(|o| o.id.as_str()).collect();
    assert_eq!(ids, ["stayhydated", "koruma", "es-fluent"]);
    assert_eq!(options[2].mark, "EF");
    assert_eq!(options[1].href, "/koruma/");
    assert_eq!(options[0].description, "");
    assert_eq!(options[0].text_value(), "stayhydated ");
    assert_eq!(
        StayhydatedProject::Koruma.description_message(),
        Some(ProjectSelectMessage::KorumaDescription)
    );
}

#[test]
fn localized_options_take_translations() {
    let options = localized_stayhydated_project_options(&vec![
        Some("index".to_owned()),
        None,
        Some("i18n".to_owned()),
    ]);
    assert_eq!(options[0].description, "index");
    assert_eq!(options[1].description, "");
    assert_eq!(options[2].text_value(), "es-fluent i18n");
}

#[test]
fn options_compare_by_id_and_by_content() {
    let a = StayhydatedProject::Koruma.option();
    let b = StayhydatedProject::Koruma.option_with("other", "d", "/x/");
    assert!(a == b);
    assert!(!a.has_same_content(&b));
    assert!(a.has_same_content(&a.clone()));
    let list = stayhydated_project_options();
    assert!(project_options_have_same_content(&list, &stayhydated_project_options()));
    assert!(!project_options_have_same_content(&list, &list[..2]));
}

#[test]
fn switcher_decisions() {
    let list = stayhydated_project_options();
    let selected = StayhydatedProject::Stayhydated.option_with("stayhydated", "here", "/");
    assert_eq!(trigger_project(&list, Some("koruma"), &selected).id, "koruma");
    assert_eq!(trigger_project(&list, Some("nope"), &selected).description, "here");
    assert_eq!(trigger_project(&list, None, &selected).description, "here");
    assert_eq!(project_to_open(&list, Some("koruma"), Some("koruma")), None);
    assert_eq!(project_to_open(&list, Some("koruma"), None), None);
    assert_eq!(project_to_open(&list, None, Some("nope")), None);
    assert_eq!(project_to_open(&list, Some("koruma"), Some("es-fluent")).unwrap().href, "/es-fluent/");
    assert_eq!(project_select_option_class(true), "project-select-option is-active");
    assert_eq!(project_lockup_class(true), "project-lockup is-compact");
    assert_eq!(project_lockup_class(false), "project-lockup");
}

#[test]
fn localized_options_fill_missing_translations_with_empty_descriptions() {
    let short = localized_stayhydated_project_options(&vec![Some("index".to_owned())]);
    assert_eq!(short.len(), 3);
    assert_eq!(short[0].description, "index");
    assert_eq!(short[1].description, "");
    assert_eq!(short[2].description, "");
    let none = localized_stayhydated_project_options(&Vec::new());
    assert!(none.iter().all(|o| o.description.is_empty()));
    let long = localized_stayhydated_project_options(&vec![
        None,
        Some("valid".to_owned()),
        None,
        Some("extra".to_owned()),
    ]);
    assert_eq!(long.len(), 3);
    assert_eq!(long[1].description, "valid");
    assert_eq!(long[2].description, "");
}
