use augur_gui::host_data::{
    HostActionDescriptor, HostActionScope, HostDatasetDescriptor, HostDatasetKind,
    HostViewDescriptor, HostViewKind, HostViewPlacement, HostViewRegistry, TableColumn,
    TableSchema, TableValueType,
};
use augur_gui::registry::{
    host_view_kind_label, host_view_kind_matches_dataset, reset_provider_for_dataset,
    resolve_host_view_registry, HostRegistryContribution, HostViewProviderKey,
    ResolvedHostDataset,
};

fn table_schema() -> TableSchema {
    TableSchema {
        columns: vec![
            TableColumn {
                id: "frame".into(),
                title: "Frame".into(),
                value_type: TableValueType::U64,
            },
            TableColumn {
                id: "x_nm".into(),
                title: "X [nm]".into(),
                value_type: TableValueType::F64,
            },
        ],
        coordinate_space_2d: None,
        coordinate_space_3d: None,
        row_id_column: None,
        time_column: None,
        layer_id: None,
        semantic_label: None,
        provenance: None,
        column_display: Vec::new(),
    }
}

fn table_descriptor(id: &str, title: &str) -> HostDatasetDescriptor {
    HostDatasetDescriptor {
        id: id.into(),
        title: title.into(),
        kind: HostDatasetKind::TableV1(table_schema()),
        kind_text: "TableV1(..)".into(),
        empty_message: "No rows".into(),
        display: None,
        relations: Vec::new(),
    }
}

fn view(
    id: &str,
    title: &str,
    dataset_id: &str,
    placement: HostViewPlacement,
    kind: HostViewKind,
) -> HostViewDescriptor {
    HostViewDescriptor {
        id: id.into(),
        title: title.into(),
        dataset_id: dataset_id.into(),
        placement,
        kind,
    }
}

fn contribution(
    provider: HostViewProviderKey,
    provider_name: &str,
    dataset: HostDatasetDescriptor,
    view: HostViewDescriptor,
) -> HostRegistryContribution {
    HostRegistryContribution {
        provider,
        provider_name: provider_name.into(),
        registry: HostViewRegistry {
            datasets: vec![dataset],
            views: vec![view],
            actions: Vec::new(),
        },
    }
}

#[test]
fn conflicting_duplicate_ids_are_ignored() {
    let first = contribution(
        HostViewProviderKey::Runtime(0),
        "First",
        table_descriptor("dataset.localization", "Localizations"),
        view(
            "view.localization",
            "Preview",
            "dataset.localization",
            HostViewPlacement::AnalysisPanel,
            HostViewKind::CompactTable,
        ),
    );
    let second = contribution(
        HostViewProviderKey::Runtime(1),
        "Second",
        table_descriptor("dataset.localization", "Different"),
        view(
            "view.localization",
            "Preview",
            "dataset.localization",
            HostViewPlacement::AnalysisPanel,
            HostViewKind::TableWindow,
        ),
    );

    let resolved = resolve_host_view_registry(vec![first, second]);
    assert_eq!(resolved.datasets().len(), 1);
    assert_eq!(resolved.views().len(), 1);
    assert_eq!(resolved.dataset("dataset.localization").unwrap().provider_name, "First");
    assert_eq!(resolved.view("view.localization").unwrap().provider_name, "First");
    assert_eq!(resolved.warnings().len(), 2);
}

#[test]
fn later_matching_descriptors_override_provider_ownership() {
    let dataset = table_descriptor("dataset.localization", "Localizations");
    let view = view(
        "view.localization",
        "Preview",
        "dataset.localization",
        HostViewPlacement::Window,
        HostViewKind::TableWindow,
    );

    let resolved = resolve_host_view_registry(vec![
        contribution(HostViewProviderKey::Runtime(0), "First", dataset.clone(), view.clone()),
        contribution(HostViewProviderKey::Runtime(1), "Second", dataset, view),
    ]);

    assert_eq!(resolved.dataset("dataset.localization").unwrap().provider_name, "Second");
    assert_eq!(resolved.view("view.localization").unwrap().provider_name, "Second");
    assert!(resolved.warnings().is_empty());
}

#[test]
fn window_views_appear_only_for_window_placements() {
    let dataset = table_descriptor("dataset.localization", "Localizations");
    let resolved = resolve_host_view_registry(vec![
        contribution(
            HostViewProviderKey::Runtime(0),
            "Provider",
            dataset.clone(),
            view(
                "view.panel",
                "Panel",
                "dataset.localization",
                HostViewPlacement::AnalysisPanel,
                HostViewKind::CompactTable,
            ),
        ),
        contribution(
            HostViewProviderKey::Runtime(0),
            "Provider",
            dataset,
            view(
                "view.window",
                "Window",
                "dataset.localization",
                HostViewPlacement::Window,
                HostViewKind::TableWindow,
            ),
        ),
    ]);

    let window_titles: Vec<String> = resolved
        .window_views()
        .iter()
        .map(|view| view.descriptor.title.clone())
        .collect();
    assert_eq!(window_titles, vec!["Window".to_owned()]);
    let panels = resolved.panel_views_for_provider(HostViewProviderKey::Runtime(0));
    assert_eq!(panels.len(), 1);
    assert!(resolved.panel_views_for_provider(HostViewProviderKey::Runtime(1)).is_empty());

    let empty = resolve_host_view_registry(Vec::new());
    assert_eq!(empty.window_views().len(), 0);
}

#[test]
fn resolver_surfaces_actions_whose_scope_dataset_is_resolved() {
    let contribution = HostRegistryContribution {
        provider: HostViewProviderKey::Runtime(0),
        provider_name: "Fitting".into(),
        registry: HostViewRegistry {
            datasets: vec![table_descriptor("dataset.candidates", "Candidates")],
            views: Vec::new(),
            actions: vec![
                HostActionDescriptor {
                    id: "refit_cluster".into(),
                    title: "Tune fit".into(),
                    scope: HostActionScope::Cluster {
                        dataset_id: "dataset.candidates".into(),
                        group_column: "cluster_id".into(),
                    },
                    param_schema: None,
                },
                HostActionDescriptor {
                    id: "orphan".into(),
                    title: "Orphan".into(),
                    scope: HostActionScope::Row { dataset_id: "dataset.does_not_exist".into() },
                    param_schema: None,
                },
            ],
        },
    };

    let resolved = resolve_host_view_registry(vec![contribution]);
    let actions: Vec<String> =
        resolved.actions().iter().map(|action| action.descriptor.id.clone()).collect();
    assert_eq!(actions, vec!["refit_cluster".to_owned()]);
    assert_eq!(resolved.actions()[0].dataset_id(), "dataset.candidates");
    assert!(resolved
        .warnings()
        .iter()
        .any(|w| w.contains("orphan") && w.contains("does_not_exist")));
}

#[test]
fn incompatible_view_dataset_pairs_are_filtered_with_warning() {
    let resolved = resolve_host_view_registry(vec![contribution(
        HostViewProviderKey::Runtime(0),
        "Provider",
        HostDatasetDescriptor {
            id: "dataset.image".into(),
            title: "Image".into(),
            kind: HostDatasetKind::Image2dV1,
            kind_text: "Image2dV1".into(),
            empty_message: "No image".into(),
            display: None,
            relations: Vec::new(),
        },
        view(
            "view.table",
            "Table",
            "dataset.image",
            HostViewPlacement::Window,
            HostViewKind::TableWindow,
        ),
    )]);

    assert!(resolved.window_views().is_empty());
    assert_eq!(resolved.warnings().len(), 1);
    assert!(resolved.warnings()[0].contains("do not match dataset"));
}

#[test]
fn reset_provider_for_dataset_targets_only_the_resolved_owner() {
    let dataset = ResolvedHostDataset {
        descriptor: table_descriptor("dataset.localization", "Localizations"),
        provider: HostViewProviderKey::Runtime(2),
        provider_name: "Runtime".into(),
    };

    let mut runtime_calls = Vec::new();
    reset_provider_for_dataset(&dataset, |index| runtime_calls.push(index));

    assert_eq!(runtime_calls, vec![2]);
}

#[test]
fn empty_ids_are_warned_about() {
    let resolved = resolve_host_view_registry(vec![contribution(
        HostViewProviderKey::Runtime(0),
        "Provider",
        table_descriptor("", "Nameless"),
        view(
            "view.lost",
            "Lost",
            "",
            HostViewPlacement::Window,
            HostViewKind::TableWindow,
        ),
    )]);
    assert!(resolved.datasets().is_empty());
    assert!(resolved.views().is_empty());
    assert_eq!(resolved.warnings().len(), 2);
}

#[test]
fn view_kinds_fit_their_datasets() {
    let table = HostDatasetKind::TableV1(table_schema());
    assert!(host_view_kind_matches_dataset(&HostViewKind::CompactTable, &table));
    assert!(!host_view_kind_matches_dataset(
        &HostViewKind::CompactTable,
        &HostDatasetKind::Series1dV1
    ));
    assert_ne!(
        host_view_kind_label(&HostViewKind::CompactTable),
        host_view_kind_label(&HostViewKind::TableWindow)
    );
}
