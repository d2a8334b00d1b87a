use ellidri::state::{is_valid_channel_name, is_valid_nickname};

#[test]
fn test_is_valid_channel_name() {
    const MAX_LEN: usize = 50;

    assert!(is_valid_channel_name("#Channel9", MAX_LEN));

    assert!(!is_valid_channel_name("", MAX_LEN));
    assert!(!is_valid_channel_name("channel", MAX_LEN));
    assert!(!is_valid_channel_name("#chan nel", MAX_LEN));
    assert!(!is_valid_nickname(
        "#longnicknameverylongohwowthisisalongnicknameohwowmuchlong01234",
        MAX_LEN
    ));
}

#[test]
fn test_is_valid_nickname() {
    const DEFAULT_MAX_LEN: usize = 9;

    assert!(is_valid_nickname("nickname", DEFAULT_MAX_LEN));
    assert!(is_valid_nickname("my{}_\\^", DEFAULT_MAX_LEN));
    assert!(is_valid_nickname("brice007", DEFAULT_MAX_LEN));

    assert!(!is_valid_nickname("", DEFAULT_MAX_LEN));
    assert!(!is_valid_nickname(" space ", DEFAULT_MAX_LEN));
    assert!(!is_valid_nickname("sp ace", DEFAULT_MAX_LEN));
    assert!(!is_valid_nickname("007brice", DEFAULT_MAX_LEN));
    assert!(!is_valid_nickname("longnicknameverylongohwowthisisalongnickname", DEFAULT_MAX_LEN));
}
