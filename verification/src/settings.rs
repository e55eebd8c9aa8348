use vstd::prelude::*;

verus! {

/// How the initial conditions of a run are produced.
#[derive(Clone, Copy, Debug, PartialEq, Eq, Structural)]
pub enum InitialConditionsType {
    /// Loaded from an existing file.
    File,
    /// A two-body orbit.
    Binary,
    /// A Plummer sphere, populated by Eddington inversion.
    Plummer,
    /// A truncated NFW profile, populated by Eddington inversion.
    Nfw,
    /// An alpha-beta-gamma profile, populated by Eddington inversion.
    AlphaBetaGamma,
}

/// The initial-conditions type that the `type` key names, if any.
pub open spec fn initial_conditions_type_named(name: Seq<char>) -> Option<InitialConditionsType> {
    if name == "File"@ {
        Some(InitialConditionsType::File)
    } else if name == "Binary"@ {
        Some(InitialConditionsType::Binary)
    } else if name == "Plummer"@ {
        Some(InitialConditionsType::Plummer)
    } else if name == "NFW"@ {
        Some(InitialConditionsType::Nfw)
    } else if name == "Alpha-Beta-Gamma"@ {
        Some(InitialConditionsType::AlphaBetaGamma)
    } else {
        None
    }
}

/// Whether two strings are equal.
fn same_text(a: &str, b: &str) -> (same: bool)
    ensures
        same == (a@ == b@),
{
    a.to_owned() == b.to_owned()
}

/// Reads the `type` key of the initial-conditions table; `None` for a name that
/// is not one of the documented types.
pub fn initial_conditions_type(name: &str) -> (kind: Option<InitialConditionsType>)
    ensures
        kind == initial_conditions_type_named(name@),
        kind == Some(InitialConditionsType::File) <==> name@ == "File"@,
        kind == Some(InitialConditionsType::Binary) <==> name@ == "Binary"@,
        kind == Some(InitialConditionsType::Plummer) <==> name@ == "Plummer"@,
        kind == Some(InitialConditionsType::Nfw) <==> name@ == "NFW"@,
        kind == Some(InitialConditionsType::AlphaBetaGamma) <==> name@ == "Alpha-Beta-Gamma"@,
        kind is None <==> (name@ != "File"@ && name@ != "Binary"@ && name@ != "Plummer"@ && name@ != "NFW"@
            && name@ != "Alpha-Beta-Gamma"@),
{
    proof {
        reveal_documented_type_names();
    }
    if same_text(name, "File") {
        Some(InitialConditionsType::File)
    } else if same_text(name, "Binary") {
        Some(InitialConditionsType::Binary)
    } else if same_text(name, "Plummer") {
        Some(InitialConditionsType::Plummer)
    } else if same_text(name, "NFW") {
        Some(InitialConditionsType::Nfw)
    } else if same_text(name, "Alpha-Beta-Gamma") {
        Some(InitialConditionsType::AlphaBetaGamma)
    } else {
        None
    }
}

/// Which test decides whether a tree node may stand in for its particles.
#[derive(Clone, Copy, Debug, PartialEq, Eq, Structural)]
pub enum CriterionKind {
    /// The node's angular size is below the opening angle.
    Geometric,
    /// The node's tidal contribution is small against the particle's acceleration.
    Dynamical,
}

/// How forces are computed, as the simulation table selects it.
#[derive(Clone, Copy, Debug, PartialEq, Eq, Structural)]
pub enum ForceMethodChoice {
    /// Pairwise summation over all particles.
    Direct,
    /// The tree code with the given criterion. With `reads_parameter` the
    /// criterion's parameter is taken from `tree-accuracy-parameter` (or the
    /// criterion's own default when that key is absent); without it the
    /// dynamical default is used whatever the table holds.
    Tree { criterion: CriterionKind, reads_parameter: bool },
}

/// A force-calculation setting that names nothing known.
#[derive(Clone, Copy, Debug, PartialEq, Eq, Structural)]
pub enum MethodSettingError {
    /// `calculation-method` is neither `Direct` nor `Tree`.
    UnrecognizedMethod,
    /// `accuracy-criterion` is neither `Geometric` nor `Dynamical`.
    UnrecognizedCriterion,
}

/// The force method selected by the optional `calculation-method` and
/// `accuracy-criterion` settings: the tree code with the dynamical criterion and
/// its default parameter when the method is absent, or when it is `Tree` and the
/// criterion is absent; the criterion is read only for the tree code.
pub open spec fn force_method_selected(method: Option<Seq<char>>, criterion: Option<Seq<char>>) -> Result<
    ForceMethodChoice,
    MethodSettingError,
> {
    match method {
        None => Ok(ForceMethodChoice::Tree { criterion: CriterionKind::Dynamical, reads_parameter: false }),
        Some(m) => if m == "Direct"@ {
            Ok(ForceMethodChoice::Direct)
        } else if m == "Tree"@ {
            match criterion {
                None => Ok(
                    ForceMethodChoice::Tree { criterion: CriterionKind::Dynamical, reads_parameter: false },
                ),
                Some(c) => if c == "Geometric"@ {
                    Ok(ForceMethodChoice::Tree { criterion: CriterionKind::Geometric, reads_parameter: true })
                } else if c == "Dynamical"@ {
                    Ok(ForceMethodChoice::Tree { criterion: CriterionKind::Dynamical, reads_parameter: true })
                } else {
                    Err(MethodSettingError::UnrecognizedCriterion)
                },
            }
        } else {
            Err(MethodSettingError::UnrecognizedMethod)
        },
    }
}

/// The text of an optional setting.
pub open spec fn setting_text(setting: Option<&str>) -> Option<Seq<char>> {
    match setting {
        Some(s) => Some(s@),
        None => None,
    }
}

/// Selects the force method from the optional `calculation-method` and
/// `accuracy-criterion` settings of the simulation table.
pub fn choose_force_method(method: Option<&str>, criterion: Option<&str>) -> (choice: Result<
    ForceMethodChoice,
    MethodSettingError,
>)
    ensures
        choice == force_method_selected(setting_text(method), setting_text(criterion)),
        method is None ==> choice == Ok::<ForceMethodChoice, MethodSettingError>(
            ForceMethodChoice::Tree { criterion: CriterionKind::Dynamical, reads_parameter: false },
        ),
        (method matches Some(m) && m@ == "Direct"@) ==> choice == Ok::<ForceMethodChoice, MethodSettingError>(ForceMethodChoice::Direct),
        (method matches Some(m) && m@ != "Direct"@ && m@ != "Tree"@) ==> choice == Err::<ForceMethodChoice, MethodSettingError>(
            MethodSettingError::UnrecognizedMethod,
        ),
        (method matches Some(m) && m@ == "Tree"@) ==> {
            &&& criterion is None ==> choice == Ok::<ForceMethodChoice, MethodSettingError>(
                ForceMethodChoice::Tree { criterion: CriterionKind::Dynamical, reads_parameter: false },
            )
            &&& (criterion matches Some(c) && c@ == "Geometric"@) ==> choice == Ok::<ForceMethodChoice, MethodSettingError>(
                ForceMethodChoice::Tree { criterion: CriterionKind::Geometric, reads_parameter: true },
            )
            &&& (criterion matches Some(c) && c@ == "Dynamical"@) ==> choice == Ok::<ForceMethodChoice, MethodSettingError>(
                ForceMethodChoice::Tree { criterion: CriterionKind::Dynamical, reads_parameter: true },
            )
            &&& (criterion matches Some(c) && c@ != "Geometric"@ && c@ != "Dynamical"@) ==> choice == Err::<ForceMethodChoice, MethodSettingError>(
                MethodSettingError::UnrecognizedCriterion,
            )
        },
{
    proof {
        reveal_method_names();
    }
    match method {
        None => Ok(ForceMethodChoice::Tree { criterion: CriterionKind::Dynamical, reads_parameter: false }),
        Some(m) => {
            if same_text(m, "Direct") {
                Ok(ForceMethodChoice::Direct)
            } else if same_text(m, "Tree") {
                match criterion {
                    None => Ok(
                        ForceMethodChoice::Tree { criterion: CriterionKind::Dynamical, reads_parameter: false },
                    ),
                    Some(c) => {
                        if same_text(c, "Geometric") {
                            Ok(
                                ForceMethodChoice::Tree {
                                    criterion: CriterionKind::Geometric,
                                    reads_parameter: true,
                                },
                            )
                        } else if same_text(c, "Dynamical") {
                            Ok(
                                ForceMethodChoice::Tree {
                                    criterion: CriterionKind::Dynamical,
                                    reads_parameter: true,
                                },
                            )
                        } else {
                            Err(MethodSettingError::UnrecognizedCriterion)
                        }
                    },
                }
            } else {
                Err(MethodSettingError::UnrecognizedMethod)
            }
        },
    }
}

/// The documented initial-conditions type names are pairwise different.
proof fn reveal_documented_type_names()
    ensures
        "File"@.len() == 4,
        "Binary"@.len() == 6,
        "Plummer"@.len() == 7,
        "NFW"@.len() == 3,
        "Alpha-Beta-Gamma"@.len() == 16,
{
    reveal_strlit("File");
    reveal_strlit("Binary");
    reveal_strlit("Plummer");
    reveal_strlit("NFW");
    reveal_strlit("Alpha-Beta-Gamma");
}

/// The method and criterion names are pairwise different.
proof fn reveal_method_names()
    ensures
        "Direct"@.len() == 6,
        "Tree"@.len() == 4,
        "Geometric"@.len() == 9 && "Geometric"@[0] == 'G',
        "Dynamical"@.len() == 9 && "Dynamical"@[0] == 'D',
        "Geometric"@ != "Dynamical"@,
{
    reveal_strlit("Direct");
    reveal_strlit("Tree");
    reveal_strlit("Geometric");
    reveal_strlit("Dynamical");
}

/// The `type` key is understood for the five documented names only, each naming
/// its own type; every other name is unknown.
pub proof fn lemma_initial_conditions_type_names(name: Seq<char>)
    ensures
        initial_conditions_type_named(name) == Some(InitialConditionsType::File) <==> name == "File"@,
        initial_conditions_type_named(name) == Some(InitialConditionsType::Binary) <==> name == "Binary"@,
        initial_conditions_type_named(name) == Some(InitialConditionsType::Plummer) <==> name == "Plummer"@,
        initial_conditions_type_named(name) == Some(InitialConditionsType::Nfw) <==> name == "NFW"@,
        initial_conditions_type_named(name) == Some(InitialConditionsType::AlphaBetaGamma) <==> name
            == "Alpha-Beta-Gamma"@,
        initial_conditions_type_named(name) is None <==> (name != "File"@ && name != "Binary"@ && name
            != "Plummer"@ && name != "NFW"@ && name != "Alpha-Beta-Gamma"@),
{
    reveal_documented_type_names();
}

/// `calculation-method = "Direct"` selects direct summation, whatever
/// `accuracy-criterion` holds or whether it is there at all.
pub proof fn lemma_direct_ignores_criterion(criterion: Option<Seq<char>>)
    ensures
        force_method_selected(Some("Direct"@), criterion) == Ok::<ForceMethodChoice, MethodSettingError>(
            ForceMethodChoice::Direct,
        ),
{
}

/// `accuracy-criterion` matters only for the tree code: unless the method is
/// `Tree`, two criterion settings select the same method.
pub proof fn lemma_criterion_read_only_for_tree(
    method: Option<Seq<char>>,
    criterion1: Option<Seq<char>>,
    criterion2: Option<Seq<char>>,
)
    requires
        method != Some("Tree"@),
    ensures
        force_method_selected(method, criterion1) == force_method_selected(method, criterion2),
{
}

/// What each combination of settings selects: the dynamical tree with its
/// default parameter when the method is absent or is `Tree` without a
/// criterion; direct summation for `Direct`; the named criterion, reading its
/// parameter, for `Tree` with `Geometric` or `Dynamical`; an error naming the
/// setting that is not understood otherwise.
pub proof fn lemma_force_method_settings(method: Option<Seq<char>>, criterion: Option<Seq<char>>)
    ensures
        method is None ==> force_method_selected(method, criterion) == Ok::<
            ForceMethodChoice,
            MethodSettingError,
        >(ForceMethodChoice::Tree { criterion: CriterionKind::Dynamical, reads_parameter: false }),
        (method matches Some(m) && m != "Direct"@ && m != "Tree"@) ==> force_method_selected(method, criterion)
            == Err::<ForceMethodChoice, MethodSettingError>(MethodSettingError::UnrecognizedMethod),
        method == Some("Tree"@) ==> {
            &&& criterion is None ==> force_method_selected(method, criterion) == Ok::<
                ForceMethodChoice,
                MethodSettingError,
            >(ForceMethodChoice::Tree { criterion: CriterionKind::Dynamical, reads_parameter: false })
            &&& criterion == Some("Geometric"@) ==> force_method_selected(method, criterion) == Ok::<
                ForceMethodChoice,
                MethodSettingError,
            >(ForceMethodChoice::Tree { criterion: CriterionKind::Geometric, reads_parameter: true })
            &&& criterion == Some("Dynamical"@) ==> force_method_selected(method, criterion) == Ok::<
                ForceMethodChoice,
                MethodSettingError,
            >(ForceMethodChoice::Tree { criterion: CriterionKind::Dynamical, reads_parameter: true })
            &&& (criterion matches Some(c) && c != "Geometric"@ && c != "Dynamical"@) ==> force_method_selected(
                method,
                criterion,
            ) == Err::<ForceMethodChoice, MethodSettingError>(MethodSettingError::UnrecognizedCriterion)
        },
{
    reveal_method_names();
}

} // verus!
