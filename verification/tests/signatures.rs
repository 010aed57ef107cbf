//! Signatures and attributes of functions.

use vostok_pdb_parser::field_attributes::{set_method_attributes, Access, MyFieldAttributes};
use vostok_pdb_parser::formatter::{
    get_return_type, max_short, pad_spaces, pad_spaces_uncap, write_return_type, Formatter,
    HeaderFormatter,
};
use vostok_pdb_parser::function_cache::FunctionCache;
use vostok_pdb_parser::function_type::{Attributes, FunctionType, ReturnType};
use vostok_pdb_parser::source_function::{Function, GenFlags};
use vostok_pdb_parser::type_builder::{
    can_extract_forward_reference, extract_forward_reference_from_template, typedef_template,
    Namespace, Type,
};

fn fire(args: &[&str]) -> FunctionType {
    FunctionType {
        name: "survarium::weapon::fire".to_string(),
        return_type: ReturnType::Type("void".to_string()),
        arg_types: args.iter().map(|a| a.to_string()).collect(),
        attrs: Attributes::none(),
    }
}

fn named(args: &[(&str, &str)]) -> Vec<(String, Type)> {
    args.iter()
        .map(|(name, ty)| (name.to_string(), Type(ty.to_string())))
        .collect()
}

fn survarium() -> Namespace {
    Namespace::get_from_class_name_impl("survarium::weapon")
}

fn source(f: &FunctionType, margs: &[(&str, &str)]) -> String {
    assert!(f.is_writable());
    let mut text = String::new();
    Formatter::Source.write_fn_signature_with_args(f, &survarium(), &named(margs), &mut text);
    text
}

fn wide() -> HeaderFormatter {
    HeaderFormatter {
        max_return_type_len: 8,
        max_method_name_len: 12,
        pad_args_len: 16,
    }
}

#[test]
fn a_short_signature_stands_on_one_line() {
    let f = fire(&["s32", "survarium::bullet*"]);
    assert_eq!(
        source(&f, &[("count", "s32"), ("b", "bullet*")]),
        "void weapon::fire( s32 count, bullet* b )"
    );
    assert_eq!(
        source(&f, &[]),
        "void weapon::fire( s32 arg_0, bullet* arg_1 )"
    );
    assert_eq!(source(&fire(&[]), &[]), "void weapon::fire( )");
    let mut constant = fire(&[]);
    constant.attrs.is_const = true;
    assert_eq!(source(&constant, &[]), "void weapon::fire( ) const");
}

#[test]
fn a_constant_value_keeps_its_name() {
    let f = fire(&["s32"]);
    assert_eq!(
        source(&f, &[("count", "const s32")]),
        "void weapon::fire( const s32 count )"
    );
    let mut text = String::new();
    Formatter::Header(wide()).write_fn_signature_with_args(
        &f,
        &survarium(),
        &named(&[("count", "const s32")]),
        &mut text,
    );
    assert_eq!(text, "void\t\tweapon::fire( s32 count )");
}

#[test]
fn an_argument_of_another_type_is_guessed() {
    let f = fire(&["s32", "survarium::bullet*"]);
    assert_eq!(
        source(&f, &[("x", "u8"), ("b", "bullet*")]),
        "void weapon::fire(\n\ts32\t\t\targ_0 /* u8 x */,\n\tbullet*\t\tb\n)"
    );
}

#[test]
fn four_arguments_stand_on_lines_of_their_own() {
    let f = fire(&["u8", "u8", "u8", "u8"]);
    assert_eq!(
        source(&f, &[]),
        "void weapon::fire(\n\tu8\t\targ_0,\n\tu8\t\targ_1,\n\tu8\t\targ_2,\n\tu8\t\targ_3\n)"
    );
    let mut text = String::new();
    wide().write_fn_signature_unnamed_args(&f, &survarium(), &mut text);
    assert!(text.starts_with("void\t\tweapon::fire(\n\t\t\t\t\tu8\t\targ_0,\n"), "{text}");
    assert!(text.ends_with("arg_3\n\t\t\t\t)"), "{text}");
}

#[test]
fn a_long_signature_is_split() {
    let long = "t".repeat(70);
    let f = fire(&[&long]);
    let text = source(&f, &[("a_name_of_nine", &long)]);
    assert_eq!(text, format!("void weapon::fire(\n\t{long}\ta_name_of_nine\n)"));
}

#[test]
fn constructors_and_destructors_return_nothing() {
    let ns = Namespace::none();
    assert_eq!(get_return_type(&ReturnType::Constructor, 1, &ns), "explicit");
    assert_eq!(get_return_type(&ReturnType::Constructor, 2, &ns), "");
    assert_eq!(get_return_type(&ReturnType::Destructor, 1, &ns), "");
    let mut text = String::new();
    write_return_type(&ReturnType::Destructor, 0, &ns, None, &mut text);
    assert_eq!(text, " ");
    let mut text = String::new();
    write_return_type(&ReturnType::Type("int".to_string()), 0, &ns, Some(12), &mut text);
    assert_eq!(text, "int\t\t\t\t");
}

#[test]
fn padding_is_in_tabs() {
    let mut text = String::new();
    pad_spaces(&mut text, 30);
    assert_eq!(text, "\t\t");
    let mut text = String::new();
    pad_spaces_uncap(&mut text, 40);
    assert_eq!(text, "\t\t\t\t\t\t\t\t\t");
    let mut text = String::new();
    pad_spaces_uncap(&mut text, 9);
    assert_eq!(text, "\t\t\t");
    assert_eq!(max_short(&vec![3, 36, 35]), 35);
    assert_eq!(max_short(&vec![36]), 0);
}

#[test]
fn attributes_are_shown() {
    let a = MyFieldAttributes(0x0217);
    assert_eq!(a.access(), Access::Public);
    assert_eq!(a.labels(), ["pure-virtual", "sealed"]);
    assert_eq!(a.comparable(), "0x214");
    assert_eq!(
        a.describe_method(),
        "access=public static=false virtual=false pure=true intro=false compiler_generated=false sealed=true"
    );
    let a = MyFieldAttributes(0x01f8);
    assert_eq!(
        a.labels(),
        [
            "introducing-virtual",
            "pseudo",
            "no-inherit",
            "no-construct",
            "compiler-generated"
        ]
    );
    assert!(a.describe_method().starts_with("access=none "));
    assert!(MyFieldAttributes(0x0004).is_override());
    assert!(!MyFieldAttributes(0x0010).is_override());
    assert_eq!(MyFieldAttributes::extract("FieldAttributes(535)"), MyFieldAttributes(535));
}

#[test]
fn a_method_without_a_body_is_inline() {
    let mut f = fire(&[]);
    set_method_attributes(&mut f, MyFieldAttributes(0x0207), false);
    assert!(f.attrs.is_virtual && f.attrs.is_override && f.attrs.is_final);
    assert!(f.attrs.is_inline && !f.attrs.is_pure);
    let mut f = fire(&[]);
    set_method_attributes(&mut f, MyFieldAttributes(0x0018), false);
    assert!(f.attrs.is_virtual && f.attrs.is_pure && !f.attrs.is_inline);
    let mut f = fire(&[]);
    set_method_attributes(&mut f, MyFieldAttributes(3), true);
    assert!(!f.attrs.is_inline);
}

#[test]
fn a_method_is_found_under_its_full_name() {
    let mut fun = Function::new(GenFlags {
        as_base: false,
        no_cache: false,
        skip_non_engine_headers: false,
    });
    fun.name_orig = "void survarium::weapon::fire".to_string();
    fun.fn_t = fire(&["s32"]);
    fun.margs = named(&[("count", "s32")]);
    let mut cache = FunctionCache::new();
    cache.insert_from_source(&fun);
    let full = "void survarium::weapon::fire";
    assert!(cache.can_get_from_header("survarium::weapon", full));
    let s = cache.get_from_header("survarium::weapon", full).unwrap();
    assert_eq!(s.fn_t.name, "fire");
    assert_eq!(s.margs[0].0, "count");
    assert!(!cache.can_get_from_header("survarium::gun", full));
    assert!(cache.get_from_header("survarium::gun", "void f").is_none());
}

#[test]
fn templates_have_short_names() {
    let list = "vostok::intrusive_ptr<survarium::a,survarium::base,policy>";
    assert_eq!(typedef_template(list).as_deref(), Some("survarium::a_ptr"));
    assert_eq!(
        typedef_template("stlp_std::vector<int,stlp_std::allocator<int> >").as_deref(),
        Some("stlp_std::vector<int >")
    );
    assert!(can_extract_forward_reference(list));
    assert_eq!(extract_forward_reference_from_template(list), Some("survarium::a"));
    assert_eq!(extract_forward_reference_from_template("survarium::a"), None);
    assert_eq!(
        Type::new_forward_declare("boost::function<void __cdecl(void)>").0,
        "boost::function< void() >"
    );
    let ns = Namespace::get_from_class_name_impl("vostok::ai::planning::planner::run");
    assert_eq!(ns.get_subclass(), Some("planning"));
    assert_eq!(Type::new("vostok::ai::planning::x&", &ns).0, "x&");
    assert_eq!(Type::new("unsigned char const &", &ns).0, "u8 const&");
    assert_eq!(Type::new("unsigned char const *", &ns).0, "unsigned pcstr");
    assert_eq!(Type::new("char const*", &ns).0, "pcstr");
}
