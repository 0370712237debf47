use hier::class::Class;
use hier::classpool::ClassPool;
use hier::errors::HierError;
use hier::modifiers::{ABSTRACT, ANNOTATION, FINAL, INTERFACE, PUBLIC};
use hier::table::TableProvider;

fn add(
    t: &mut TableProvider,
    id: &str,
    mods: u16,
    sup: Option<&str>,
    ifaces: &[&str],
    assign: &[&str],
) {
    let ifs: Vec<String> = ifaces.iter().map(|s| s.to_string()).collect();
    let asg: Vec<String> = assign.iter().map(|s| s.to_string()).collect();
    let ok = t.add_type(id.to_string(), mods, sup.map(|s| s.to_string()), ifs, asg);
    assert!(ok);
}

/// A canned hierarchy shaped like a current runtime generation, where the
/// boxed integer type declares three interfaces.
fn jdk_table() -> TableProvider {
    let mut t = TableProvider::new();
    add(&mut t, "java/lang/Object", PUBLIC, None, &[], &[]);
    add(
        &mut t,
        "java/lang/Comparable",
        PUBLIC | INTERFACE | ABSTRACT,
        None,
        &[],
        &["java/lang/Object"],
    );
    add(
        &mut t,
        "java/lang/constant/Constable",
        PUBLIC | INTERFACE | ABSTRACT,
        None,
        &[],
        &["java/lang/Object"],
    );
    add(
        &mut t,
        "java/lang/constant/ConstantDesc",
        PUBLIC | INTERFACE | ABSTRACT,
        None,
        &[],
        &["java/lang/Object"],
    );
    add(
        &mut t,
        "java/lang/Number",
        PUBLIC | ABSTRACT,
        Some("java/lang/Object"),
        &[],
        &["java/lang/Object"],
    );
    add(
        &mut t,
        "java/lang/Integer",
        PUBLIC | FINAL,
        Some("java/lang/Number"),
        &[
            "java/lang/Comparable",
            "java/lang/constant/Constable",
            "java/lang/constant/ConstantDesc",
        ],
        &[
            "java/lang/Number",
            "java/lang/Object",
            "java/lang/Comparable",
            "java/lang/constant/Constable",
            "java/lang/constant/ConstantDesc",
        ],
    );
    add(
        &mut t,
        "java/lang/Float",
        PUBLIC | FINAL,
        Some("java/lang/Number"),
        &["java/lang/Comparable"],
        &["java/lang/Number", "java/lang/Object", "java/lang/Comparable"],
    );
    add(
        &mut t,
        "java/util/Map",
        PUBLIC | INTERFACE | ABSTRACT,
        None,
        &[],
        &["java/lang/Object"],
    );
    add(
        &mut t,
        "java/util/AbstractMap",
        PUBLIC | ABSTRACT,
        Some("java/lang/Object"),
        &["java/util/Map"],
        &["java/lang/Object", "java/util/Map"],
    );
    add(
        &mut t,
        "java/util/HashMap",
        PUBLIC,
        Some("java/util/AbstractMap"),
        &["java/util/Map"],
        &["java/util/AbstractMap", "java/lang/Object", "java/util/Map"],
    );
    add(
        &mut t,
        "java/util/EnumMap",
        PUBLIC | ABSTRACT,
        Some("java/util/AbstractMap"),
        &["java/util/Map"],
        &["java/util/AbstractMap", "java/lang/Object", "java/util/Map"],
    );
    add(
        &mut t,
        "java/lang/Override",
        PUBLIC | INTERFACE | ABSTRACT | ANNOTATION,
        None,
        &[],
        &["java/lang/Object"],
    );
    add(&mut t, "int", PUBLIC | FINAL | ABSTRACT, None, &[], &[]);
    t
}

/// The same hierarchy as an earlier runtime generation reported it, with a
/// single interface on the boxed integer type.
fn jdk_table_early() -> TableProvider {
    let mut t = TableProvider::new();
    add(&mut t, "java/lang/Object", PUBLIC, None, &[], &[]);
    add(
        &mut t,
        "java/lang/Comparable",
        PUBLIC | INTERFACE | ABSTRACT,
        None,
        &[],
        &["java/lang/Object"],
    );
    add(
        &mut t,
        "java/lang/Number",
        PUBLIC | ABSTRACT,
        Some("java/lang/Object"),
        &[],
        &["java/lang/Object"],
    );
    add(
        &mut t,
        "java/lang/Integer",
        PUBLIC | FINAL,
        Some("java/lang/Number"),
        &["java/lang/Comparable"],
        &["java/lang/Number", "java/lang/Object", "java/lang/Comparable"],
    );
    t
}

fn class_names(cp: &mut ClassPool<TableProvider>, classes: &[Class]) -> Vec<String> {
    classes.iter().map(|c| c.class_name(cp).unwrap()).collect()
}

fn dotted_names(cp: &mut ClassPool<TableProvider>, classes: &[Class]) -> Vec<String> {
    classes.iter().map(|c| c.name(cp).unwrap()).collect()
}

#[test]
fn class_test_lookup_caching() {
    let mut cp = ClassPool::new(jdk_table());
    let _class1 = cp.lookup_class("java/lang/Object").unwrap();

    assert_eq!(cp.len(), 1);

    cp.clear();

    assert_eq!(cp.len(), 0);
}

#[test]
fn test_lookup_caching() {
    let mut cp = ClassPool::new(jdk_table());
    let _class1 = cp.lookup_class("java.lang.Object").unwrap();

    assert_eq!(cp.len(), 1);
}

#[test]
fn test_number_common_super_class() {
    let mut cp = ClassPool::new(jdk_table());
    let class1 = cp.lookup_class("java/lang/Integer").unwrap();
    let class2 = cp.lookup_class("java/lang/Float").unwrap();
    let superclass = class1.common_superclass(&mut cp, &class2).unwrap();
    let superclass_name = superclass.class_name(&mut cp).unwrap();

    assert_eq!("java/lang/Number", superclass_name);
}

#[test]
fn test_superclass() {
    let mut cp = ClassPool::new(jdk_table());
    let class = cp.lookup_class("java.lang.Integer").unwrap();
    let superclass = class.superclass(&mut cp).unwrap();

    assert!(superclass.is_some());

    let superclass = superclass.unwrap();

    assert_eq!(superclass.name(&mut cp).unwrap(), "java.lang.Number");
}

#[test]
fn test_unsupported_class_name() {
    let mut cp = ClassPool::new(jdk_table());

    assert!(cp.lookup_class("void[]").is_err());
}

#[test]
fn test_is_assignable_from() {
    let mut cp = ClassPool::new(jdk_table());
    let class1 = cp.lookup_class("java.lang.Integer").unwrap();
    let superclass = class1.superclass(&mut cp).unwrap();

    assert!(superclass.is_some());

    let superclass = superclass.unwrap();

    assert!(superclass.is_assignable_from(&mut cp, &class1).unwrap());
}

#[test]
fn test_is_interface() {
    let mut cp = ClassPool::new(jdk_table());
    let interface = cp.lookup_class("java.lang.Comparable").unwrap();

    assert!(interface.is_interface(&mut cp).unwrap());
}

#[test]
fn test_is_annotation() {
    let mut env = ClassPool::new(jdk_table());
    let annotation = env.lookup_class("java.lang.Override").unwrap();

    assert!(annotation.is_annotation(&mut env).unwrap());
}

#[test]
fn class_test_interfaces() {
    let implemented_interfaces = vec![
        "java/lang/Comparable",
        "java/lang/constant/Constable",
        "java/lang/constant/ConstantDesc",
    ];

    let mut cp = ClassPool::new(jdk_table());
    let class = cp.lookup_class("java/lang/Integer").unwrap();
    let interfaces = class.interfaces(&mut cp).unwrap();
    let interface_names = class_names(&mut cp, &interfaces);

    assert_eq!(implemented_interfaces, interface_names);
}

#[test]
fn test_interfaces() {
    let implemented_interfaces = vec![
        "java.lang.Comparable",
        "java.lang.constant.Constable",
        "java.lang.constant.ConstantDesc",
    ];

    let mut cp = ClassPool::new(jdk_table());
    let class = cp.lookup_class("java.lang.Integer").unwrap();
    let interfaces = class.interfaces(&mut cp).unwrap();
    let interface_names = dotted_names(&mut cp, &interfaces);

    assert_eq!(implemented_interfaces, interface_names);
}

#[test]
fn test_interfaces_early_generation() {
    let mut cp = ClassPool::new(jdk_table_early());
    let class = cp.lookup_class("java.lang.Integer").unwrap();
    let interfaces = class.interfaces(&mut cp).unwrap();
    let interface_names = dotted_names(&mut cp, &interfaces);

    assert_eq!(vec!["java.lang.Comparable"], interface_names);
}

#[test]
fn test_resolve_deduplicates() {
    let mut cp = ClassPool::new(jdk_table());
    let c1 = cp.lookup_class("java.lang.Integer").unwrap();
    let before = cp.len();
    let c2 = cp.lookup_class("java/lang/Integer").unwrap();

    assert_eq!(c1, c2);
    assert_eq!(cp.len(), before);
}

#[test]
fn test_common_superclass_reflexive() {
    let mut cp = ClassPool::new(jdk_table());
    let x = cp.lookup_class("java.util.HashMap").unwrap();

    assert_eq!(x.common_superclass(&mut cp, &x).unwrap(), x);
}

#[test]
fn test_map_common_super_class() {
    let mut cp = ClassPool::new(jdk_table());
    let enum_map = cp.lookup_class("java.util.EnumMap").unwrap();
    let hash_map = cp.lookup_class("java.util.HashMap").unwrap();
    let common = enum_map.common_superclass(&mut cp, &hash_map).unwrap();

    assert_eq!(common.name(&mut cp).unwrap(), "java.util.AbstractMap");
}

#[test]
fn test_unrelated_interfaces_meet_at_root() {
    let mut cp = ClassPool::new(jdk_table());
    let comparable = cp.lookup_class("java.lang.Comparable").unwrap();
    let map = cp.lookup_class("java.util.Map").unwrap();
    let common = comparable.common_superclass(&mut cp, &map).unwrap();

    assert_eq!(common.class_name(&mut cp).unwrap(), "java/lang/Object");
}

#[test]
fn test_class_meets_implemented_interface_at_itself() {
    let mut cp = ClassPool::new(jdk_table());
    let integer = cp.lookup_class("java.lang.Integer").unwrap();
    let comparable = cp.lookup_class("java.lang.Comparable").unwrap();
    let common = integer.common_superclass(&mut cp, &comparable).unwrap();

    assert_eq!(common, integer);
    assert_eq!(common.class_name(&mut cp).unwrap(), "java/lang/Integer");
}

#[test]
fn test_primitive_lookup_is_cached_under_its_own_name() {
    let mut cp = ClassPool::new(jdk_table());
    let int_class = cp.lookup_class("int").unwrap();
    let boxed = cp.lookup_class("java.lang.Integer").unwrap();

    assert_eq!(int_class.class_name(&mut cp).unwrap(), "int");
    assert!(int_class != boxed);
    assert_eq!(cp.len(), 2);
}

#[test]
fn test_primitives_only_assignable_to_themselves() {
    let mut cp = ClassPool::new(jdk_table());
    let int_class = cp.lookup_class("int").unwrap();
    let object = cp.lookup_class("java.lang.Object").unwrap();

    assert!(int_class.is_assignable_from(&mut cp, &int_class).unwrap());
    assert!(!object.is_assignable_from(&mut cp, &int_class).unwrap());

    let common = int_class.common_superclass(&mut cp, &object).unwrap();

    assert_eq!(common.class_name(&mut cp).unwrap(), "java/lang/Object");
}

#[test]
fn test_clear_invalidates_entries() {
    let mut cp = ClassPool::new(jdk_table());
    let before = cp.lookup_class("java.lang.Integer").unwrap();

    assert!(!cp.is_empty());

    cp.clear();

    assert_eq!(cp.len(), 0);
    assert!(cp.is_empty());

    let stale = before.class_name(&mut cp);
    assert!(matches!(stale, Err(HierError::DanglingReference(_))));

    let fresh = cp.lookup_class("java.lang.Integer").unwrap();
    assert!(fresh != before);
    assert_eq!(fresh.class_name(&mut cp).unwrap(), "java/lang/Integer");
    assert_eq!(cp.len(), 1);
}

#[test]
fn test_missing_class_reports_not_found() {
    let mut cp = ClassPool::new(jdk_table());
    let missing = cp.lookup_class("java.lang.NoSuchType");

    assert!(matches!(missing, Err(HierError::NotFound(_))));
    assert_eq!(cp.len(), 0);
}

#[test]
fn test_modifiers_and_synthetic_flag() {
    let mut cp = ClassPool::new(jdk_table());
    let integer = cp.lookup_class("java.lang.Integer").unwrap();

    assert_eq!(integer.modifiers(&mut cp).unwrap(), PUBLIC | FINAL);
    assert!(!integer.is_interface(&mut cp).unwrap());
    assert!(!integer.is_annotation(&mut cp).unwrap());
    assert!(!integer.is_synthetic(&mut cp).unwrap());
}

#[test]
fn test_table_rejects_duplicates_and_unknown_links() {
    let mut t = TableProvider::new();
    assert!(t.add_type("java/lang/Object".to_string(), PUBLIC, None, vec![], vec![]));
    assert!(!t.add_type("java/lang/Object".to_string(), PUBLIC, None, vec![], vec![]));
    assert!(!t.add_type(
        "a/B".to_string(),
        PUBLIC,
        Some("a/Missing".to_string()),
        vec![],
        vec![]
    ));
    assert!(!t.add_type(
        "a/B".to_string(),
        PUBLIC,
        None,
        vec!["a/MissingIface".to_string()],
        vec![]
    ));
    assert!(t.knows("java/lang/Object"));
    assert!(!t.knows("a/B"));
}
