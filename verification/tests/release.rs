use sonora::cdm::{release, ReleaseError};

fn answer(check: &str) -> String {
    format!(")]}}'\n{{\"response\":{{\"server\":\"prod\",\"apps\":[{{\"appid\":\"x\",\"updatecheck\":{check}}}]}}}}")
}

const FULL: &str = r#"{"status":"ok","nextversion":"4.10.2830.0","pipelines":[{"operations":[{"size":1234,"out":{"sha256":"ABCdef09"},"urls":[{"url":"http://a/x.crx3"},{"url":"https://b/x.crx3"},{"nourl":1},{"url":"https://c/x.crx3"}]}]}]}"#;

#[test]
fn an_offer_reads_with_https_mirrors_first() {
    let offered = release(&answer(FULL)).unwrap();
    assert_eq!(offered.version, "4.10.2830.0");
    assert_eq!(offered.size, 1234);
    assert_eq!(offered.sha256, "abcdef09");
    assert_eq!(
        offered.urls,
        vec!["https://b/x.crx3", "https://c/x.crx3", "http://a/x.crx3"]
    );
}

#[test]
fn an_answer_without_a_guard_line_reads_too() {
    let text = answer(FULL);
    let bare = text.split_once('\n').unwrap().1;
    assert_eq!(release(bare).unwrap().version, "4.10.2830.0");
}

#[test]
fn a_size_that_is_no_whole_number_reads_as_nothing() {
    let check = FULL.replace("\"size\":1234", "\"size\":12.5");
    assert_eq!(release(&answer(&check)).unwrap().size, 0);
    let check = FULL.replace("\"size\":1234,", "");
    assert_eq!(release(&answer(&check)).unwrap().size, 0);
    let check = FULL.replace("\"size\":1234", "\"size\":18446744073709551615");
    assert_eq!(release(&answer(&check)).unwrap().size, u64::MAX);
}

#[test]
fn what_is_not_an_offer_is_refused_with_its_reason() {
    assert_eq!(release("not json"), Err(ReleaseError::NotJson));
    assert_eq!(release(")]}'\n{"), Err(ReleaseError::NotJson));
    assert_eq!(
        release(&answer(r#"{"status":"noupdate"}"#)),
        Err(ReleaseError::NoModule("noupdate".to_owned()))
    );
    assert_eq!(
        release(&answer("{}")),
        Err(ReleaseError::NoModule(String::new()))
    );
    assert_eq!(
        release(&answer(&FULL.replace("\"nextversion\":\"4.10.2830.0\",", ""))),
        Err(ReleaseError::NoVersion)
    );
    assert_eq!(
        release(&answer(&FULL.replace("\"sha256\"", "\"sha1\""))),
        Err(ReleaseError::NoChecksum)
    );
    assert_eq!(
        release(&answer(r#"{"status":"ok","nextversion":"1.2","pipelines":[{"operations":[{"out":{"sha256":"aa"},"urls":{}}]}]}"#)),
        Err(ReleaseError::NoMirror)
    );
    assert_eq!(
        release(&answer(r#"{"status":"ok","nextversion":"1.2","pipelines":[{"operations":[{"out":{"sha256":"aa"},"urls":[{"href":"x"}]}]}]}"#)),
        Err(ReleaseError::NoMirror)
    );
}
