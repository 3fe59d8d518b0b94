use plank_bytecode_tests::lowering::{
    builder_error, object_compile_error, plan_module, Linkage, MirFunction, MirModel, PlankType,
    PrimitiveType, SonaShape,
};
use plank_bytecode_tests::LowerError;

#[test]
fn lowering_errors_keep_their_messages() {
    assert!(matches!(builder_error("dup".to_string()), LowerError::Builder(m) if m == "dup"));
    let e = object_compile_error(&["A".to_string(), "B(1)".to_string(), "C".to_string()]);
    assert!(matches!(e, LowerError::ObjectCompile(m) if m == "A; B(1); C"));
    assert!(matches!(object_compile_error(&[]), LowerError::ObjectCompile(m) if m.is_empty()));
}

fn sample_mir() -> MirModel {
    // 0: void, 1: bool, 2: u256, 3: struct { void }, 4: struct { bool, void, u256 },
    // 5: struct { struct 4, struct 3 }, 6: function (never reached).
    MirModel {
        types: vec![
            PlankType::Primitive(PrimitiveType::Void),
            PlankType::Primitive(PrimitiveType::Bool),
            PlankType::Primitive(PrimitiveType::U256),
            PlankType::Struct(vec![0]),
            PlankType::Struct(vec![1, 0, 2]),
            PlankType::Struct(vec![4, 3]),
            PlankType::Primitive(PrimitiveType::Function),
        ],
        fns: vec![
            MirFunction { params: vec![], locals: vec![5, 2], return_type: 0 },
            MirFunction { params: vec![0, 1, 2], locals: vec![2, 3, 4], return_type: 1 },
            MirFunction { params: vec![0], locals: vec![5], return_type: 5 },
        ],
        init: 0,
        run: Some(2),
    }
}

#[test]
fn module_plan_declares_structs_after_their_fields() {
    let plan = plan_module(&sample_mir());
    let decls: Vec<(usize, String, Vec<SonaShape>)> =
        plan.structs.iter().map(|d| (d.type_id, d.name.clone(), d.fields.clone())).collect();
    assert_eq!(
        decls,
        vec![
            (4, "struct_4".to_string(), vec![SonaShape::I1, SonaShape::Unit, SonaShape::I256]),
            (5, "struct_5".to_string(), vec![SonaShape::Struct(4), SonaShape::Unit]),
        ]
    );
    assert_eq!(plan.shapes.get(&3), Some(&None));
    assert_eq!(plan.shapes.get(&6), None);
}

#[test]
fn module_plan_signatures_and_object() {
    let plan = plan_module(&sample_mir());
    let names: Vec<&str> = plan.functions.iter().map(|f| f.name.as_str()).collect();
    assert_eq!(names, vec!["init", "fn_1", "run"]);
    let linkages: Vec<Linkage> = plan.functions.iter().map(|f| f.linkage).collect();
    assert_eq!(linkages, vec![Linkage::Public, Linkage::Private, Linkage::Public]);
    assert!(plan.functions[0].args.is_empty());
    assert!(plan.functions[0].returns.is_empty());
    assert_eq!(plan.functions[1].args, vec![SonaShape::I256, SonaShape::Struct(4)]);
    assert_eq!(plan.functions[1].returns, vec![SonaShape::I1]);
    assert_eq!(plan.functions[2].args, vec![SonaShape::Struct(5)]);
    assert_eq!(plan.functions[2].returns, vec![SonaShape::Struct(5)]);
    assert_eq!(plan.init, 0);
    assert_eq!(plan.run, Some(2));
    assert!(plan.embed_runtime);
}
