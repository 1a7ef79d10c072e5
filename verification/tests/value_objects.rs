use tokio_cni::types::CniContainerId;
use tokio_cni::types::CniInterfaceName;
use tokio_cni::types::CniName;
use tokio_cni::types::CniNetworkNamespace;
use tokio_cni::types::CniValidationError;
use tokio_cni::types::CniVersion;
use tokio_cni::types::IFNAME_MAX_LENGTH;

#[test]
fn container_id_rejects_empty_or_blank() {
    for container_id in vec!["", "   "] {
        assert_eq!(
            CniContainerId::new(container_id),
            Err(CniValidationError::IsEmptyOrBlank)
        );
    }
}

#[test]
fn container_id_rejects_first_nonalphabetic() {
    for container_id in vec!["1abc", "мabc", "!abc", "_abc", ":abc", ".abc"] {
        assert_eq!(
            CniContainerId::new(container_id),
            Err(CniValidationError::FirstIsNotAlphabetic)
        );
    }
}

#[test]
fn container_id_rejects_invalid_chars() {
    for container_id in vec!["a!bc", "a:bc", "a$bc", "a^bc", "a{bc", "a}bc"] {
        assert_eq!(
            CniContainerId::new(container_id),
            Err(CniValidationError::ContainsForbiddenCharacter)
        );
    }
}

#[test]
fn container_id_accepts_valid() {
    for container_id in vec!["abc", "a1bc", "AbC", "A_bc", "A.bc", "A-bc"] {
        assert_eq!(CniContainerId::new(container_id).unwrap().as_str(), container_id);
    }
}

#[test]
fn name_rejects_empty_or_blank() {
    for name in vec!["", "   "] {
        assert_eq!(CniName::new(name), Err(CniValidationError::IsEmptyOrBlank));
    }
}

#[test]
fn name_rejects_non_alphabetic_first_char() {
    for name in vec!["1abc", "_abc", ":abc", "!abc", "лabc", "~abc"] {
        assert_eq!(CniName::new(name), Err(CniValidationError::FirstIsNotAlphabetic));
    }
}

#[test]
fn name_rejects_non_alphanumeric_non_first_char() {
    for name in vec!["a!c", "a:c", "a.c", "a_c"] {
        assert_eq!(CniName::new(name), Err(CniValidationError::ContainsForbiddenCharacter));
    }
}

#[test]
fn name_accepts_valid() {
    for name in vec!["abc", "Abc", "AbC", "A0C", "aC0", "a6bbB1"] {
        assert_eq!(CniName::new(name).unwrap().as_str(), name);
    }
}

#[test]
fn interface_name_rejects_empty_or_blank() {
    for interface_name in vec!["", " ", "  ", "   "] {
        assert_eq!(
            CniInterfaceName::new(interface_name),
            Err(CniValidationError::IsEmptyOrBlank)
        );
    }
}

#[test]
fn interface_name_rejects_too_long() {
    let interface_name = (0..=16).map(|_| 'c').collect::<String>();
    assert_eq!(
        CniInterfaceName::new(interface_name.as_str()),
        Err(CniValidationError::TooLong {
            maximum_allowed: IFNAME_MAX_LENGTH
        })
    );
}

#[test]
fn interface_name_rejects_forbidden_values() {
    for interface_name in vec![".", ".."] {
        assert_eq!(
            CniInterfaceName::new(interface_name),
            Err(CniValidationError::IsForbiddenValue)
        );
    }
}

#[test]
fn interface_name_rejects_forbidden_chars() {
    for interface_name in vec!["a c", "a:c", "a/c"] {
        assert_eq!(
            CniInterfaceName::new(interface_name),
            Err(CniValidationError::ContainsForbiddenCharacter)
        );
    }
}

#[test]
fn interface_name_accepts_valid() {
    for interface_name in vec!["standard_ifname", "another_ifname", "last"] {
        assert_eq!(CniInterfaceName::new(interface_name).unwrap().as_str(), interface_name);
    }
}

#[test]
fn version_doesnt_parse_malformed() {
    for version in vec!["0.0", "0.0.0.0", "", " "] {
        assert_eq!(
            CniVersion::parse(version),
            Err(CniValidationError::IncorrectSplitAmount)
        );
    }

    for version in vec!["a.0.0", "0.b.0", "0.0.c", "!.:.>"] {
        assert!(CniVersion::parse(version).is_err());
    }
}

#[test]
fn interface_name_accepts_standard_device_name() {
    assert_eq!(CniInterfaceName::new("eth0").unwrap().as_str(), "eth0");
}

#[test]
fn version_parses_and_normalizes() {
    let v = CniVersion::parse("1.0.0").unwrap();
    assert_eq!(v.as_str(), "1.0.0");
    assert_eq!(v, CniVersion::new(1, 0, 0));
    // str::parse::<u8> semantics: a leading plus and leading zeros read fine.
    assert_eq!(CniVersion::parse("+1.01.000").unwrap().as_str(), "1.1.0");
    // An out-of-range part does not.
    assert_eq!(
        CniVersion::parse("256.0.0"),
        Err(CniValidationError::SplitNotParseable)
    );
}

#[test]
fn container_id_equality_is_by_string() {
    let a = CniContainerId::new("abc").unwrap();
    let b = CniContainerId::new("abc").unwrap();
    let c = CniContainerId::new("abd").unwrap();
    assert_eq!(a, b);
    assert_ne!(a, c);
    assert_eq!(a.clone().as_str(), "abc");
}

#[test]
fn version_new_covers_the_whole_range() {
    assert_eq!(CniVersion::new(0, 0, 0).as_str(), "0.0.0");
    assert_eq!(CniVersion::new(255, 255, 255).as_str(), "255.255.255");
    assert_eq!(CniVersion::parse("255.255.255").unwrap().as_str(), "255.255.255");
}

#[test]
fn network_namespace_text_forms() {
    let path = CniNetworkNamespace::LinuxNamespace("/var/run/netns/testing".to_string());
    assert_eq!(path.to_text(), "/var/run/netns/testing");
    let custom = CniNetworkNamespace::Custom(CniName::new("testing").unwrap());
    assert_eq!(custom.to_text(), "testing");
}
