//! The names of functions that initialize and destroy static objects.

use vostok_pdb_parser::dyninit::{
    can_canonicalize, can_demangle, canonicalize_static_init_thunk as c, name_thunk, query_for,
};

#[test]
fn simple() {
    assert_eq!(
        c("??__Es_application@@YAXXZ").unwrap(),
        "`dynamic initializer for 's_application''"
    );
}

#[test]
fn namespaced() {
    assert_eq!(
        c("??__Eg_allocator@engine@vostok@@YAXXZ").unwrap(),
        "`dynamic initializer for 'vostok::engine::g_allocator''"
    );
}

#[test]
fn atexit_destructor() {
    assert_eq!(
        c("??__Fs_world@@YAXXZ").unwrap(),
        "`dynamic atexit destructor for 's_world''"
    );
}

#[test]
fn templated_static_member() {
    // The `??__E?<member>@<templated-class>` form msvc-demangler can't parse
    // as a whole thunk, but the inner data symbol demangles cleanly.
    assert_eq!(
        c("??__E?Format@Image9GridVertex@Render@Scaleform@@2UVertexFormat@23@A@@YAXXZ").unwrap(),
        "`dynamic initializer for 'Scaleform::Render::Image9GridVertex::Format''"
    );
}

#[test]
fn not_a_thunk() {
    assert!(c("??0foo@@QAE@XZ").is_none());
    assert!(c("__FindPESection").is_none());
}

#[test]
fn a_member_is_asked_for_alone() {
    assert_eq!(
        query_for("??__E?x@y@@2HA@@YAXXZ").as_deref(),
        Some("?x@y@@2HA")
    );
    assert_eq!(
        query_for("??__Fx@@YAXXZ").as_deref(),
        Some("??__Fx@@YAXXZ")
    );
    assert_eq!(query_for("?x@@YAXXZ"), None);
}

#[test]
fn a_thunk_without_its_suffix_has_no_name() {
    assert_eq!(name_thunk("??__Ex@@YAXXZ", Some("x")), None);
    assert_eq!(
        name_thunk("??__Ex@@YAXXZ", Some("x::`dynamic initializer'")).as_deref(),
        Some("`dynamic initializer for 'x''")
    );
    assert_eq!(name_thunk("??__Ex@@YAXXZ", None), None);
}

#[test]
fn names_that_the_demangler_cannot_hold_are_told() {
    assert!(can_canonicalize("??__Ex@@YAXXZ"));
    assert!(can_canonicalize("??__E$TSS0@@YAXXZ"));
    assert!(!can_canonicalize("??__E??_B@50_000?$00@@YAXXZ"));
    assert!(can_canonicalize("??__E??_B@50_000?$AA@@YAXXZ"));
    assert!(can_canonicalize("??__E?x@?A0x12345678@@3V?$a@H@1@A@@YAXXZ"));
    assert!(can_canonicalize("$TSS0"));
}

#[test]
fn guards_of_threads_can_be_asked_for() {
    assert!(can_demangle("?$TSS2147483647@?1??f@@YAXXZ@4HA"));
    assert!(!can_demangle("?$TSS2147483648@?1??f@@YAXXZ@4HA"));
    assert!(!can_demangle("?$TSS0@?A@@4HA"));
    assert!(!can_demangle("?x@@3H$0IAAAAAAA@"));
}

#[test]
fn an_anonymous_namespace_is_no_class() {
    assert!(!can_demangle("??$f@Vx@?A0x1@@V2@@@YAXXZ"));
    assert!(can_demangle("??$f@V1@Vx@?A0x1@@@@YAXXZ"));
    assert!(can_demangle("??0c@?A0x1@@QAE@XZ"));
    assert!(!can_demangle(&"a".repeat(4097)));
}
