//! The names of types.

use vostok_pdb_parser::type_builder::{
    can_typedef_template, extract_template_arg, find_extract_template_arg,
    replace_by_first_template_arg, typedef_template, Namespace, Type,
};

#[test]
fn test_extract_template_arg() {
    let input = "std::vector<collision_geometry_subscriber*, std::allocator< collision_geometry_subscriber* > >";
    let dejure = "collision_geometry_subscriber*";
    let defacto = extract_template_arg(input, "std::vector<").unwrap();
    assert_eq!(dejure, defacto);

    let input = "std::vector<collision_geometry_subscriber<2, 3>*, std::allocator< collision_geometry_subscriber* > >";
    let dejure = "collision_geometry_subscriber<2, 3>*";
    let defacto = extract_template_arg(input, "std::vector<").unwrap();
    assert_eq!(dejure, defacto);
}

#[test]
fn test_replace_by_first_template_arg() {
    let input = "boost::array<vostok::intrusive_list<survarium::affect_subscriber, affect_subscriber*, 32, threading::mutex, size_policy, no_debug_policy >, 9 >";
    let dejure = "boost::array<survarium::affect_subscriber_list, 9 >";
    let defacto = replace_by_first_template_arg(input, "vostok::intrusive_list<", "_list").unwrap();
    assert_eq!(dejure, defacto);
}

#[test]
fn an_argument_of_another_template_is_not_found() {
    assert_eq!(extract_template_arg("std::list<int>", "std::vector<"), None);
    assert_eq!(
        find_extract_template_arg("a std::vector<int, x>", "std::vector<"),
        Some("int")
    );
}

#[test]
fn a_namespace_is_taken_from_a_name() {
    let ns = Namespace::get_from_class_name_impl("vostok::render::scene::view");
    assert_eq!(ns.get_root(), Some("vostok"));
    assert_eq!(ns.get_class(), Some("render"));
    let ns = Namespace::get_from_class_name_impl("survarium::weapon");
    assert_eq!(ns.get_root(), Some("survarium"));
    assert_eq!(ns.get_class(), None);
    let ns = Namespace::get_from_class_name_impl("boost::noncopyable");
    assert_eq!(ns.get_root(), None);
    assert_eq!(ns.depth(), 0);
}

#[test]
fn a_namespace_is_opened_and_closed() {
    let ns = Namespace::get_from_class_name_impl("survarium::weapon");
    let mut text = String::new();
    ns.start_namespace(&mut text);
    let open = text.clone();
    ns.end_namespace(&mut text);
    assert!(open.contains("survarium"), "{open}");
    assert!(text.len() > open.len());
    assert_eq!(ns.strip("survarium::weapon"), "weapon");
    assert_eq!(ns.strip("other::weapon"), "other::weapon");
}

#[test]
fn a_type_is_named_inside_a_namespace() {
    let ns = Namespace::get_from_class_name_impl("survarium::weapon");
    assert_eq!(Type::new("survarium::bullet*", &ns).0, "bullet*");
    assert_eq!(Type::new("int", &Namespace::none()).0, "int");
}

#[test]
fn containers_have_short_names() {
    assert!(can_typedef_template("int"));
    assert_eq!(typedef_template("int"), None);
}
