use hier::classpath::ClassPath;
use hier::jvm::JvmVersion;
use hier::modifiers::{
    Modifiers, ABSTRACT, ACCESS_MODIFIERS, ANNOTATION, CLASS_MODIFIERS, FINAL, INTERFACE,
    PARAMETER_MODIFIERS, PRIVATE, PROTECTED, PUBLIC, STATIC, STRICT, SYNTHETIC,
};
use hier::version::JavaVersion;

fn to_jni(s: &str) -> String {
    ClassPath::Java(s.to_string()).convert().into_string()
}

fn to_java(s: &str) -> String {
    ClassPath::JNI(s.to_string()).convert().into_string()
}

#[test]
fn test_convert_plain_class() {
    assert_eq!(to_jni("java.lang.Object"), "java/lang/Object");
    assert_eq!(to_java("java/lang/Object"), "java.lang.Object");
}

#[test]
fn test_convert_nested_class() {
    assert_eq!(to_jni("java.util.Map$Entry"), "java/util/Map$Entry");
    assert_eq!(to_java("java/util/Map$Entry"), "java.util.Map$Entry");
}

#[test]
fn test_convert_primitives_pass_through() {
    assert_eq!(to_jni("int"), "int");
    assert_eq!(to_jni("void"), "void");
    assert_eq!(to_java("int"), "int");
}

#[test]
fn test_convert_primitive_arrays() {
    assert_eq!(to_jni("int[]"), "[I");
    assert_eq!(to_jni("double[][]"), "[[D");
    assert_eq!(to_jni("void[]"), "[V");
    assert_eq!(to_java("[I"), "int[]");
    assert_eq!(to_java("[[D"), "double[][]");
    assert_eq!(to_java("[V"), "void[]");
}

#[test]
fn test_convert_object_arrays() {
    assert_eq!(to_jni("java.lang.Class[]"), "[Ljava/lang/Class;");
    assert_eq!(to_jni("java.lang.Class[][]"), "[[Ljava/lang/Class;");
    assert_eq!(to_java("[Ljava/lang/Class;"), "java.lang.Class[]");
    assert_eq!(to_java("[[Ljava/lang/Class;"), "java.lang.Class[][]");
}

#[test]
fn test_round_trip_both_dialects() {
    let java_spellings = [
        "java.lang.Object",
        "java.util.Map$Entry",
        "int",
        "int[]",
        "void[]",
        "java.lang.Class[]",
        "boolean[][]",
        "A",
        "I[]",
    ];
    for s in java_spellings {
        assert_eq!(to_java(&to_jni(s)), s);
    }
    let jni_spellings = [
        "java/lang/Object",
        "java/util/Map$Entry",
        "int",
        "[I",
        "[V",
        "[Ljava/lang/Class;",
        "[[Z",
        "A",
        "[LI;",
    ];
    for s in jni_spellings {
        assert_eq!(to_jni(&to_java(s)), s);
    }
}

#[test]
fn test_as_jni_and_as_java_are_one_sided() {
    let jni = ClassPath::Java("java.lang.Object".to_string()).as_jni();
    assert_eq!(jni, ClassPath::JNI("java/lang/Object".to_string()));

    let kept = ClassPath::JNI("[I".to_string()).as_jni();
    assert_eq!(kept, ClassPath::JNI("[I".to_string()));

    let java = ClassPath::JNI("[I".to_string()).as_java();
    assert_eq!(java, ClassPath::Java("int[]".to_string()));

    let kept = ClassPath::Java("int[]".to_string()).as_java();
    assert_eq!(kept, ClassPath::Java("int[]".to_string()));
}

#[test]
fn test_modifier_predicates() {
    let m = Modifiers::new(PUBLIC | FINAL);
    assert!(m.is_public());
    assert!(m.is_final());
    assert!(!m.is_private());
    assert!(!m.is_protected());
    assert!(!m.is_static());
    assert!(!m.is_interface());
    assert!(!m.is_abstract());
    assert_eq!(m.bits(), 0x0011);

    assert!(Modifiers::is_interface_bits(PUBLIC | INTERFACE | ABSTRACT));
    assert!(!Modifiers::is_interface_bits(PUBLIC | ABSTRACT));
    assert!(Modifiers::is_annotation_bits(INTERFACE | ANNOTATION));
    assert!(!Modifiers::is_annotation_bits(INTERFACE));
    assert!(Modifiers::is_synthetic_bits(SYNTHETIC));
    assert!(!Modifiers::is_synthetic_bits(PUBLIC | FINAL));
}

#[test]
fn test_modifier_masks() {
    assert_eq!(ACCESS_MODIFIERS, PUBLIC | PRIVATE | PROTECTED);
    assert_eq!(PARAMETER_MODIFIERS, FINAL);
    assert_eq!(
        CLASS_MODIFIERS,
        PUBLIC | PROTECTED | PRIVATE | STATIC | FINAL | ABSTRACT | STRICT
    );
    assert_eq!(ACCESS_MODIFIERS & INTERFACE, 0);
}

#[test]
fn test_java_version_from_legacy_format() {
    assert_eq!(JavaVersion::from("1.0".to_string()), JavaVersion::V0);
    assert_eq!(JavaVersion::from("1.4.2".to_string()), JavaVersion::V4);
    assert_eq!(JavaVersion::from("1.8".to_string()), JavaVersion::V8);
    assert_eq!(
        JavaVersion::from("1.9".to_string()),
        JavaVersion::Invalid("1.9".to_string())
    );
    assert_eq!(
        JavaVersion::from("1".to_string()),
        JavaVersion::Invalid("1".to_string())
    );
}

#[test]
fn test_java_version_from_major_format() {
    assert_eq!(JavaVersion::from("9".to_string()), JavaVersion::V9);
    assert_eq!(JavaVersion::from("17".to_string()), JavaVersion::V17);
    assert_eq!(JavaVersion::from("21.0.1".to_string()), JavaVersion::V21);
    assert_eq!(JavaVersion::from("23".to_string()), JavaVersion::V23);
    assert_eq!(
        JavaVersion::from("24".to_string()),
        JavaVersion::Invalid("24".to_string())
    );
    assert_eq!(
        JavaVersion::from("".to_string()),
        JavaVersion::Invalid("".to_string())
    );
}

#[test]
fn test_jvm_version_from_both_formats() {
    assert_eq!(JvmVersion::from("1.8.0_202".to_string()), JvmVersion::V8);
    assert_eq!(JvmVersion::from("11".to_string()), JvmVersion::V11);
    assert_eq!(JvmVersion::from("17.0.9".to_string()), JvmVersion::V17);
    assert_eq!(
        JvmVersion::from("zulu".to_string()),
        JvmVersion::Invalid("zulu".to_string())
    );
}
