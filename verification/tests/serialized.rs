use turntable::data::UserData;
use turntable::serialized::ToSerialized;

fn user(id: i32, name: &str) -> UserData {
    UserData {
        id,
        username: name.to_string(),
        password: "pw".to_string(),
        display_name: name.to_uppercase(),
        superuser: false,
    }
}

#[test]
fn lists_are_serialized_item_by_item_in_order() {
    let users = vec![user(1, "ada"), user(2, "bob"), user(3, "cy")];
    let serialized = users.to_serialized();
    let ids: Vec<i32> = serialized.iter().map(|u| u.id).collect();
    let names: Vec<&str> = serialized.iter().map(|u| u.username.as_str()).collect();
    assert_eq!(ids, vec![1, 2, 3]);
    assert_eq!(names, vec!["ada", "bob", "cy"]);
    assert_eq!(serialized[2].display_name, "CY");
}
