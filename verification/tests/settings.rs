use rusty_nbuddies::settings::{
    choose_force_method, initial_conditions_type, CriterionKind, ForceMethodChoice, InitialConditionsType,
    MethodSettingError,
};

#[test]
fn initial_conditions_types_by_name() {
    assert_eq!(initial_conditions_type("File"), Some(InitialConditionsType::File));
    assert_eq!(initial_conditions_type("Binary"), Some(InitialConditionsType::Binary));
    assert_eq!(initial_conditions_type("Plummer"), Some(InitialConditionsType::Plummer));
    assert_eq!(initial_conditions_type("NFW"), Some(InitialConditionsType::Nfw));
    assert_eq!(initial_conditions_type("Alpha-Beta-Gamma"), Some(InitialConditionsType::AlphaBetaGamma));
    assert_eq!(initial_conditions_type("nfw"), None);
    assert_eq!(initial_conditions_type(""), None);
}

#[test]
fn force_method_defaults_to_dynamical_tree() {
    let default = Ok(ForceMethodChoice::Tree { criterion: CriterionKind::Dynamical, reads_parameter: false });
    assert_eq!(choose_force_method(None, None), default);
    assert_eq!(choose_force_method(None, Some("Geometric")), default);
    assert_eq!(choose_force_method(Some("Tree"), None), default);
}

#[test]
fn force_method_named_explicitly() {
    assert_eq!(choose_force_method(Some("Direct"), Some("nonsense")), Ok(ForceMethodChoice::Direct));
    assert_eq!(
        choose_force_method(Some("Tree"), Some("Geometric")),
        Ok(ForceMethodChoice::Tree { criterion: CriterionKind::Geometric, reads_parameter: true })
    );
    assert_eq!(
        choose_force_method(Some("Tree"), Some("Dynamical")),
        Ok(ForceMethodChoice::Tree { criterion: CriterionKind::Dynamical, reads_parameter: true })
    );
}

#[test]
fn force_method_unrecognized_names() {
    assert_eq!(choose_force_method(Some("Exact"), None), Err(MethodSettingError::UnrecognizedMethod));
    assert_eq!(choose_force_method(Some("tree"), Some("Geometric")), Err(MethodSettingError::UnrecognizedMethod));
    assert_eq!(choose_force_method(Some("Tree"), Some("Angular")), Err(MethodSettingError::UnrecognizedCriterion));
}
