use armonik_api::names::{snake, snake_case, upper_camel, variant_name};

#[test]
fn values_are_stripped_of_the_proto_enum_name() {
    assert_eq!(
        variant_name("TaskStatus", "TASK_STATUS_CREATING"),
        "Creating"
    );
    assert_eq!(
        variant_name("HealthStatusEnum", "HEALTH_STATUS_ENUM_HEALTHY"),
        "Healthy"
    );
    assert_ne!(
        variant_name("Status", "HEALTH_STATUS_ENUM_HEALTHY"),
        "Healthy"
    );
}

#[test]
fn a_prefix_is_kept_when_stripping_it_leaves_no_identifier() {
    assert_eq!(variant_name("Colour", "COLOUR"), "Colour");
    assert_eq!(variant_name("Version", "VERSION_2"), "Version2");
}

#[test]
fn upper_camel_drops_empty_parts() {
    assert_eq!(upper_camel("TASK_STATUS_CREATING"), "TaskStatusCreating");
    assert_eq!(upper_camel("__A__bC_"), "ABc");
    assert_eq!(upper_camel(""), "");
}

#[test]
fn snake_names_every_upper_case_boundary() {
    assert_eq!(snake("HealthChecks"), "health_checks");
    assert_eq!(snake("A"), "a");
    assert_eq!(snake("ÉtéX"), "été_x");
    assert_eq!(snake_case("TaskDetailed"), "task_detailed");
    assert_eq!(snake_case("ÉtéX"), "Été_x");
    assert_eq!(snake_case("already_snake"), "already_snake");
}

#[test]
fn snake_and_snake_case_agree_on_ascii() {
    for name in ["HealthChecks", "TaskDetailed", "already_snake", "ABC", ""] {
        assert_eq!(snake(name), snake_case(name));
    }
}

#[test]
fn snake_case_is_idempotent() {
    let once = snake_case("TaskDetailedIDs");
    assert_eq!(once, "task_detailed_i_ds");
    assert_eq!(snake_case(&once), once);
}

#[test]
fn upper_camel_leaves_no_underscore() {
    let out = upper_camel("__TASK__STATUS_");
    assert_eq!(out, "TaskStatus");
    assert!(!out.contains('_'));
}
