use super::ir;
use super::parse::{alien_entries, alien_fields_of, is_extension_key, promoted, schema_service_names};
use crate::path::joined;
use super::schema;
use super::schema::{
    project_yaml,
    service_yaml,
    services_yaml,
    text_yaml,
    unknown_entries,
    ALIEN_FIELD_MARK,
};
use super::yaml::{untag, Yaml, YamlModel};
use vstd::prelude::*;

verus! {

/// The Compose file that `project` is written out as: every setting given explicitly and
/// no unknown field.
pub open spec fn demoted(project: ir::ProjectView, demoted_project: schema::Project) -> bool {
    &&& optional_text_view(demoted_project.name) == Some(project.name)
    &&& demoted_project.services@.map_values(
        |s: (String, schema::Service)| (s.0@, s.1.build@),
    ) == project.services
    &&& forall|i: int|
        0 <= i < demoted_project.services@.len() ==> (#[trigger] demoted_project.services@[i]).1.profiles
            is None && demoted_project.services@[i].1.unknown_fields@.len() == 0
    &&& optional_text_view(demoted_project.x_wheelsticks.local_workbench) == Some(
        project.x_wheelsticks.local_workbench,
    )
    &&& optional_text_view(demoted_project.x_wheelsticks.remote_workbench) == Some(
        project.x_wheelsticks.remote_workbench,
    )
    &&& demoted_project.x_wheelsticks.schema_mode == project.x_wheelsticks.schema_mode
    &&& optional_text_view(demoted_project.x_wheelsticks.user_systemd_folder) == Some(
        project.x_wheelsticks.user_systemd_folder_original,
    )
    &&& demoted_project.x_wheelsticks.unknown_fields@.len() == 0
    &&& demoted_project.unknown_fields@.len() == 0
}

/// The value of an optional string.
pub open spec fn optional_text_view(text: Option<String>) -> Option<Seq<char>> {
    match text {
        Some(t) => Some(t@),
        None => None,
    }
}

/// The Compose file that `project` is written out as.
pub fn demote(project: &ir::Project) -> (demoted_project: schema::Project)
    requires
        ir::sorted_names(ir::service_names(project@)),
    ensures
        demoted(project@, demoted_project),
        schema_service_names(demoted_project) == ir::service_names(project@),
        ir::sorted_names(schema_service_names(demoted_project)),
{
    let mut services: Vec<(String, schema::Service)> = Vec::new();
    let mut i: usize = 0;
    while i < project.services.len()
        invariant
            i <= project.services.len(),
            services@.map_values(|s: (String, schema::Service)| (s.0@, s.1.build@))
                == project.services@.take(i as int).map_values(
                |s: (String, ir::Service)| (s.0@, s.1.build@),
            ),
            forall|k: int|
                0 <= k < services@.len() ==> (#[trigger] services@[k]).1.profiles is None
                    && services@[k].1.unknown_fields@.len() == 0,
        decreases project.services.len() - i,
    {
        let (key, service) = &project.services[i];
        let ghost before = services@;
        services.push(
            (
                key.clone(),
                schema::Service {
                    build: service.build.clone(),
                    profiles: None,
                    unknown_fields: Vec::new(),
                },
            ),
        );
        assert(services@ == before.push(services@.last()));
        assert(services@.map_values(|s: (String, schema::Service)| (s.0@, s.1.build@))
            == before.map_values(|s: (String, schema::Service)| (s.0@, s.1.build@)).push(
            (key@, service.build@),
        ));
        assert(project.services@.take(i + 1).map_values(|s: (String, ir::Service)| (s.0@, s.1.build@))
            == project.services@.take(i as int).map_values(
            |s: (String, ir::Service)| (s.0@, s.1.build@),
        ).push((key@, service.build@)));
        i = i + 1;
    }
    assert(project.services@.take(project.services.len() as int) == project.services@);
    assert(services@.map_values(|s: (String, schema::Service)| s.0@) == ir::service_names(project@)) by {
        let pairs = services@.map_values(|s: (String, schema::Service)| (s.0@, s.1.build@));
        assert forall|k: int| 0 <= k < services@.len() implies services@.map_values(
            |s: (String, schema::Service)| s.0@,
        )[k] == ir::service_names(project@)[k] by {
            assert(pairs[k] == project@.services[k]);
        }
    }
    schema::Project {
        name: Some(project.name.clone()),
        services,
        x_wheelsticks: schema::Wheelsticks {
            local_workbench: Some(project.x_wheelsticks.local_workbench.clone()),
            remote_workbench: Some(project.x_wheelsticks.remote_workbench.clone()),
            schema_mode: project.x_wheelsticks.schema_mode,
            user_systemd_folder: Some(project.x_wheelsticks.user_systemd_folder_original.clone()),
            unknown_fields: Vec::new(),
        },
        unknown_fields: Vec::new(),
    }
}

/// The document that `project` is written out as: its name, its services with their
/// build contexts and its settings, every one of them explicit.
pub open spec fn printed(project: ir::ProjectView) -> YamlModel {
    let settings = project.x_wheelsticks;
    YamlModel::Mapping(
        seq![
            (text_yaml("name"@), text_yaml(project.name)),
            (
                text_yaml("services"@),
                YamlModel::Mapping(
                    project.services.map_values(
                        |s: (Seq<char>, Seq<char>)|
                            (
                                text_yaml(s.0),
                                YamlModel::Mapping(seq![(text_yaml("build"@), text_yaml(s.1))]),
                            ),
                    ),
                ),
            ),
            (
                text_yaml("x-wheelsticks"@),
                YamlModel::Mapping(
                    seq![
                        (text_yaml("local_workbench"@), text_yaml(settings.local_workbench)),
                        (text_yaml("remote_workbench"@), text_yaml(settings.remote_workbench)),
                        (
                            text_yaml("schema_mode"@),
                            text_yaml(schema::schema_mode_name(settings.schema_mode)),
                        ),
                        (
                            text_yaml("user_systemd_folder"@),
                            text_yaml(settings.user_systemd_folder_original),
                        ),
                    ],
                ),
            ),
        ],
    )
}

/// The document that `project` is written out as.
pub fn go(project: &ir::Project) -> (document: Yaml)
    requires
        ir::sorted_names(ir::service_names(project@)),
    ensures
        document@ == printed(project@),
{
    let demoted_project = demote(project);
    let document = demoted_project.to_yaml();
    proof {
        let services = demoted_project.services@;
        let views = services.map_values(|s: (String, schema::Service)| (s.0@, s.1.build@));
        let left = services.map_values(
            |s: (String, schema::Service)| (text_yaml(s.0@), service_yaml(s.1)),
        );
        let right = project@.services.map_values(
            |s: (Seq<char>, Seq<char>)|
                (
                    text_yaml(s.0),
                    YamlModel::Mapping(seq![(text_yaml("build"@), text_yaml(s.1))]),
                ),
        );
        assert forall|i: int| 0 <= i < left.len() implies left[i] == right[i] by {
            assert(views[i] == project@.services[i]);
            assert(services[i].1.profiles is None);
            assert(unknown_entries(services[i].1.unknown_fields@) == Seq::<
                (YamlModel, YamlModel),
            >::empty());
            assert(service_yaml(services[i].1) == YamlModel::Mapping(
                seq![(text_yaml("build"@), text_yaml(services[i].1.build@))],
            ));
        }
        assert(left =~= right);
        assert(unknown_entries(demoted_project.x_wheelsticks.unknown_fields@) == Seq::<
            (YamlModel, YamlModel),
        >::empty());
        assert(unknown_entries(demoted_project.unknown_fields@) == Seq::<
            (YamlModel, YamlModel),
        >::empty());
    }
    document
}


/// The entries of the written-out services hold no mark when no service has an unknown or
/// unsupported field.
proof fn lemma_no_alien_services(services: Seq<(String, schema::Service)>)
    requires
        forall|i: int|
            0 <= i < services.len() ==> (#[trigger] services[i]).1.profiles is None
                && services[i].1.unknown_fields@.len() == 0,
    ensures
        alien_entries(
            services.map_values(
                |s: (String, schema::Service)| (text_yaml(s.0@), service_yaml(s.1)),
            ),
        ) == Seq::<(YamlModel, YamlModel)>::empty(),
    decreases services.len(),
{
    if services.len() > 0 {
        let rest = services.drop_last();
        lemma_no_alien_services(rest);
        let entries = services.map_values(
            |s: (String, schema::Service)| (text_yaml(s.0@), service_yaml(s.1)),
        );
        assert(entries.drop_last() == rest.map_values(
            |s: (String, schema::Service)| (text_yaml(s.0@), service_yaml(s.1)),
        ));
        let service = services.last().1;
        assert(services[services.len() - 1] == services.last());
        let inner = seq![(text_yaml("build"@), text_yaml(service.build@))];
        assert(unknown_entries(service.unknown_fields@) == Seq::<(YamlModel, YamlModel)>::empty());
        assert(service_yaml(service) == YamlModel::Mapping(inner));
        reveal_strlit("build");
        reveal_strlit("x-wheelsticks-alien");
        reveal_strlit("x-");
        assert(untag(inner[0].0) == text_yaml("build"@));
        assert(ALIEN_FIELD_MARK@ == "x-wheelsticks-alien"@);
        assert("build"@.len() != ALIEN_FIELD_MARK@.len());
        assert("build"@.take(2)[0] != "x-"@[0]);
        assert(!is_extension_key(inner[0].0));
        assert(inner.drop_last() == Seq::<(YamlModel, YamlModel)>::empty());
        assert(alien_entries(inner.drop_last()) == Seq::<(YamlModel, YamlModel)>::empty());
        assert(alien_fields_of(inner.last().1) is None);
        assert(alien_entries(inner) == Seq::<(YamlModel, YamlModel)>::empty());
        assert(alien_fields_of(service_yaml(service)) is None);
    }
}

/// Writing a project out and reading it back under its name, with the home folder that
/// its absolute folder of systemd units was made with, gives the project again,
/// where it has no alien fields and is not made of a single service named like the mark
/// of alien fields.
pub proof fn lemma_print_then_promote(
    project: ir::ProjectView,
    demoted_project: schema::Project,
    home: Seq<char>,
)
    requires
        demoted(project, demoted_project),
        project.alien_fields is None,
        !(project.services.len() == 1 && project.services[0].0 == ALIEN_FIELD_MARK@),
        project.x_wheelsticks.user_systemd_folder_absolute == joined(
            home,
            project.x_wheelsticks.user_systemd_folder_original,
        ),
    ensures
        promoted(project.name, demoted_project, home) == project,
{
    let services = demoted_project.services@;
    lemma_no_alien_services(services);
    let service_entries = services.map_values(
        |s: (String, schema::Service)| (text_yaml(s.0@), service_yaml(s.1)),
    );
    reveal_strlit("x-wheelsticks-alien");
    reveal_strlit("x-wheelsticks");
    reveal_strlit("x-");
    reveal_strlit("services");
    reveal_strlit("name");
    if service_entries.len() == 1 {
        assert(services.map_values(|s: (String, schema::Service)| (s.0@, s.1.build@))[0].0
            == services[0].0@);
        assert(untag(service_entries[0].0) == text_yaml(services[0].0@));
    }
    assert(alien_fields_of(services_yaml(services)) is None);
    let top = seq![
        (text_yaml("name"@), schema::optional_yaml(demoted_project.name)),
        (text_yaml("services"@), services_yaml(services)),
        (text_yaml("x-wheelsticks"@), schema::wheelsticks_yaml(demoted_project.x_wheelsticks)),
    ];
    assert(unknown_entries(demoted_project.unknown_fields@) == Seq::<(YamlModel, YamlModel)>::empty());
    assert(project_yaml(demoted_project) == YamlModel::Mapping(top));
    assert(is_extension_key(top[2].0)) by {
        assert("x-wheelsticks"@.take(2) == "x-"@);
    }
    assert("services"@.take(2)[0] != "x-"@[0]);
    assert(!is_extension_key(top[1].0));
    assert("name"@.take(2)[0] != "x-"@[0]);
    assert(!is_extension_key(top[0].0));
    assert(top.drop_last().drop_last().drop_last() == Seq::<(YamlModel, YamlModel)>::empty());
    assert(alien_entries(top.drop_last().drop_last().drop_last()) == Seq::<(YamlModel, YamlModel)>::empty());
    assert(top.drop_last().drop_last().last() == top[0]);
    assert(alien_fields_of(top[0].1) is None);
    assert(alien_entries(top.drop_last().drop_last()) == Seq::<(YamlModel, YamlModel)>::empty());
    assert(alien_entries(top.drop_last()) == Seq::<(YamlModel, YamlModel)>::empty());
    assert(alien_entries(top) == Seq::<(YamlModel, YamlModel)>::empty());
    assert(alien_fields_of(project_yaml(demoted_project)) is None);
}

} // verus!
