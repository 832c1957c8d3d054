use plexmaton_tui::composer_menu::{
    command_rows, retained_skills, skill_rows, ModelCatalog, ModelChoice, ModelIdentity,
    SkillChoice, SkillChoiceSource, MAX_SKILL_CATALOG_BYTES, MAX_SKILL_CHOICES,
};
use plexmaton_tui::composer_menu::menu::ComposerMenu;
use plexmaton_tui::grammar::Command;

fn choice(index: usize, description: String) -> SkillChoice {
    SkillChoice {
        name: format!("skill-{index}"),
        description,
        source: SkillChoiceSource::User,
    }
}

fn model(provider: &str, name: &str, display: &str, wire: &str) -> ModelChoice {
    ModelChoice {
        identity: ModelIdentity {
            provider: provider.to_owned(),
            model: name.to_owned(),
        },
        display_name: display.to_owned(),
        wire_id: wire.to_owned(),
    }
}

#[test]
fn catalog_retention_is_bounded_by_count_and_bytes() {
    let mut picker = ComposerMenu::new();
    picker.set_choices(
        (0..MAX_SKILL_CHOICES + 20)
            .map(|index| choice(index, "small".to_owned()))
            .collect(),
    );
    assert_eq!(picker.choices().len(), MAX_SKILL_CHOICES);

    picker.set_choices(vec![
        choice(0, "x".repeat(40 * 1024)),
        choice(1, "y".repeat(40 * 1024)),
    ]);
    assert_eq!(picker.choices().len(), 1);
    let retained: usize = picker
        .choices()
        .iter()
        .map(|choice| choice.name.len() + choice.description.len())
        .sum();
    assert!(retained <= MAX_SKILL_CATALOG_BYTES);
}

#[test]
fn retained_skills_keeps_the_leading_skills_that_fit() {
    let kept = retained_skills(
        (0..MAX_SKILL_CHOICES + 20)
            .map(|index| choice(index, "small".to_owned()))
            .collect(),
    );
    assert_eq!(kept.len(), MAX_SKILL_CHOICES);
    assert_eq!(kept[0].name, "skill-0");
}

#[test]
fn an_unnamed_skill_ends_the_catalog() {
    let mut choices = vec![choice(0, "a".to_owned()), choice(1, "b".to_owned())];
    choices.insert(1, SkillChoice {
        name: String::new(),
        description: "nameless".to_owned(),
        source: SkillChoiceSource::ProjectShared,
    });
    let kept = retained_skills(choices);
    assert_eq!(kept.len(), 1);
    assert_eq!(kept[0].name, "skill-0");
}

#[test]
fn skills_and_commands_are_listed_by_the_prefix_typed() {
    let skills = vec![
        choice(1, "one".to_owned()),
        SkillChoice {
            name: "review".to_owned(),
            description: "two".to_owned(),
            source: SkillChoiceSource::ProjectNative,
        },
        choice(2, "three".to_owned()),
    ];
    assert_eq!(skill_rows(&skills, "skill"), ["skill-1", "skill-2"]);
    assert_eq!(skill_rows(&skills, ""), ["skill-1", "review", "skill-2"]);
    assert!(skill_rows(&skills, "x").is_empty());
    assert_eq!(command_rows("re"), [Command::Resume]);
    assert_eq!(command_rows("").len(), 5);
    assert!(command_rows("tr").is_empty());
    assert!(command_rows("zzz").is_empty());
}

#[test]
fn models_match_any_of_their_names_ignoring_case() {
    let catalog = ModelCatalog::collect(vec![
        model("northwind", "swift-main", "Swift Main", "swift-5"),
        model("southbay", "verse", "Tidal Verse", "tidal-verse-4"),
    ]);
    assert!(!catalog.limited());
    let rows = catalog.rows("TIDAL");
    assert_eq!(rows.len(), 1);
    assert_eq!(rows[0].provider, "southbay");
    assert_eq!(catalog.rows("").len(), 2);
    assert!(catalog.rows("meadow").is_empty());
    let wanted = ModelIdentity {
        provider: "northwind".to_owned(),
        model: "swift-main".to_owned(),
    };
    assert_eq!(
        catalog.choice(&wanted).map(|found| found.display_name.as_str()),
        Some("Swift Main")
    );
    assert_eq!(
        catalog.heading(None, "meadow"),
        vec!["No matching models.".to_owned()]
    );
    assert!(catalog.heading(None, "swift").is_empty());
}

#[test]
fn the_model_catalog_is_bounded_and_says_so() {
    let many: Vec<ModelChoice> = (0..300)
        .map(|index| model("p", &format!("m{index}"), "d", "w"))
        .collect();
    let catalog = ModelCatalog::collect(many);
    assert_eq!(catalog.choices().len(), 256);
    assert!(catalog.limited());
    let big = ModelCatalog::collect(vec![
        model("p", "a", &"x".repeat(40 * 1024), "w"),
        model("p", "b", &"y".repeat(40 * 1024), "w"),
    ]);
    assert_eq!(big.choices().len(), 1);
    assert_eq!(
        big.heading(Some("switch failed"), "zzz"),
        vec![
            "switch failed".to_owned(),
            "Model list limited to 256 entries / 64 KiB.".to_owned(),
            "No matching models.".to_owned(),
        ]
    );
    assert_eq!(
        ModelCatalog::new().heading(None, ""),
        vec!["No configured models.".to_owned()]
    );
}
