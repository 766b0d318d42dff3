use safechat::localization::{
    load, locale_file_name, locale_paths, InstalledLocale, LocaleError, UiText,
};

fn texts(send: &str) -> UiText {
    UiText {
        my_profile: String::new(),
        ready: String::new(),
        conversations: String::new(),
        search_conversations: String::new(),
        new_conversation: String::new(),
        verified_contact: String::new(),
        no_conversations: String::new(),
        verified_encrypted: String::new(),
        load_older: String::new(),
        new_conversation_help: String::new(),
        contact_bundle: String::new(),
        contact_fingerprint: String::new(),
        profile_password: String::new(),
        verify_add_contact: String::new(),
        contact_added: String::new(),
        select_conversation: String::new(),
        type_message: String::new(),
        send: send.to_owned(),
        paste_encrypted: String::new(),
        receive_pasted: String::new(),
        unlock: String::new(),
        create_profile: String::new(),
        unlock_help: String::new(),
        create_help: String::new(),
        profile_name: String::new(),
        password: String::new(),
        confirm_password: String::new(),
        create_profile_button: String::new(),
        unlock_profile: String::new(),
        back_to_profiles: String::new(),
        create_new_profile: String::new(),
        fingerprint: String::new(),
        your_fingerprint: String::new(),
        share_bundle: String::new(),
        copy_bundle: String::new(),
        close: String::new(),
    }
}

fn installed() -> Vec<InstalledLocale> {
    vec![
        InstalledLocale {
            file_name: "en.json".to_owned(),
            text: Some(texts("Send")),
        },
        InstalledLocale {
            file_name: "ru.json".to_owned(),
            text: Some(texts("Отправить")),
        },
        InstalledLocale {
            file_name: "xx.json".to_owned(),
            text: None,
        },
    ]
}

#[test]
fn english_is_the_default_locale() {
    let installed = installed();
    assert_eq!(load("en", &installed).unwrap().send, "Send");
    assert_eq!(load("unknown", &installed).unwrap().send, "Send");
    assert_eq!(load("", &installed).unwrap().send, "Send");
}

#[test]
fn russian_is_loaded_from_an_external_file() {
    let installed = installed();
    assert_eq!(load("ru", &installed).unwrap().send, "Отправить");
    assert_eq!(load("RU", &installed).unwrap().send, "Отправить");
}

#[test]
fn malformed_and_missing_locales_are_reported() {
    assert_eq!(load("xx", &installed()).unwrap_err(), LocaleError::Malformed);
    assert_eq!(load("en", &vec![]).unwrap_err(), LocaleError::NotInstalled);
}

#[test]
fn locale_files_are_looked_for_in_order() {
    assert_eq!(locale_file_name("PT-br"), "pt-br.json");
    assert_eq!(
        locale_paths("RU", Some("/opt/app"), "/src"),
        vec![
            "/opt/app/locales/ru.json",
            "/opt/app/../../slint-ui/locales/ru.json",
            "/src/locales/ru.json",
            "locales/ru.json",
        ]
    );
    assert_eq!(
        locale_paths("ru", None, "/src"),
        vec!["/src/locales/ru.json", "locales/ru.json"]
    );
}
