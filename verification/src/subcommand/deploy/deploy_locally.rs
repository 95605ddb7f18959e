use crate::library::command::{copy_optional, optional_view, CommandLine, CommandView, StatusWithinTime};
use crate::string_map::StringMap;
use crate::path::{extension, extension_of, join, joined, stem, stem_of};
use crate::text::{
    concatenate, copy_strings, count_char, joined_with, lemma_split_join, lex_le, lex_le_exec, same_strings,
    split, split_exec,
};
use vstd::prelude::*;

verus! {

/// Folder, relative to the home folder, where systemd units of the user are kept.
pub const USER_SYSTEMD_FOLDER: &'static str = ".config/systemd/user";

/// Label holding the comma-separated names of the containers of an image.
pub const CONTAINER_NAMES_LABEL: &'static str = "info.evolutics.wheelsticks.container-names";

/// Label holding the health check command of an image.
pub const HEALTH_CHECK_LABEL: &'static str = "info.evolutics.wheelsticks.health-check";

/// Label holding the comma-separated networks of an image.
pub const NETWORKS_LABEL: &'static str = "info.evolutics.wheelsticks.networks";

/// Label holding the comma-separated port mappings of an image.
pub const PORT_MAPPINGS_LABEL: &'static str = "info.evolutics.wheelsticks.port-mappings";

/// Label holding the comma-separated volume mounts of an image.
pub const VOLUME_MOUNTS_LABEL: &'static str = "info.evolutics.wheelsticks.volume-mounts";

/// An image as the container engine lists it.
pub struct RawImage {
    pub containers: u16,
    pub digest: String,
    pub id: String,
    pub labels: StringMap<String>,
}

/// An image with the container settings that its labels carry.
pub struct Image {
    pub container_count: u16,
    pub container_names: Vec<String>,
    pub digest: String,
    pub health_check: Option<String>,
    pub image_id: String,
    pub networks: Vec<String>,
    pub port_mappings: Vec<String>,
    pub volume_mounts: Vec<String>,
}

/// The value of an `Image`.
pub struct ImageView {
    pub container_count: u16,
    pub container_names: Seq<Seq<char>>,
    pub digest: Seq<char>,
    pub health_check: Option<Seq<char>>,
    pub image_id: Seq<char>,
    pub networks: Seq<Seq<char>>,
    pub port_mappings: Seq<Seq<char>>,
    pub volume_mounts: Seq<Seq<char>>,
}

impl View for Image {
    type V = ImageView;

    open spec fn view(&self) -> ImageView {
        ImageView {
            container_count: self.container_count,
            container_names: self.container_names.deep_view(),
            digest: self.digest@,
            health_check: optional_view(self.health_check),
            image_id: self.image_id@,
            networks: self.networks.deep_view(),
            port_mappings: self.port_mappings.deep_view(),
            volume_mounts: self.volume_mounts.deep_view(),
        }
    }
}

/// The value of `key` among `labels`, if any.
pub open spec fn label(labels: Map<Seq<char>, Seq<char>>, key: Seq<char>) -> Option<Seq<char>> {
    if labels.contains_key(key) {
        Some(labels[key])
    } else {
        None
    }
}

/// The comma-separated fields of a label; none for a missing label.
pub open spec fn csv(text: Option<Seq<char>>) -> Seq<Seq<char>> {
    match text {
        None => Seq::empty(),
        Some(t) => split(t, ','),
    }
}

/// The image that `raw` describes.
pub open spec fn image_of(raw: RawImage) -> ImageView {
    let labels = raw.labels@;
    ImageView {
        container_count: raw.containers,
        container_names: csv(label(labels, CONTAINER_NAMES_LABEL@)),
        digest: raw.digest@,
        health_check: label(labels, HEALTH_CHECK_LABEL@),
        image_id: raw.id@,
        networks: csv(label(labels, NETWORKS_LABEL@)),
        port_mappings: csv(label(labels, PORT_MAPPINGS_LABEL@)),
        volume_mounts: csv(label(labels, VOLUME_MOUNTS_LABEL@)),
    }
}

/// The comma-separated fields of `text`; none if there is no text.
pub fn csv_fields(text: Option<&String>) -> (fields: Vec<String>)
    ensures
        fields.deep_view() == csv(match text {
            Some(t) => Some(t@),
            None => None,
        }),
{
    match text {
        None => Vec::new(),
        Some(t) => split_exec(t, ','),
    }
}

/// A missing label has no fields; the fields of a label, joined with commas, give the
/// label back, and there is one field more than there are commas.
pub proof fn lemma_csv_round_trip(text: Seq<char>)
    ensures
        csv(None) == Seq::<Seq<char>>::empty(),
        joined_with(csv(Some(text)), ',') == text,
        csv(Some(text)).len() == count_char(text, ',') + 1,
{
    lemma_split_join(text, ',');
}

/// The value of the label `key`, if `labels` has it.
fn get_label<'a>(labels: &'a StringMap<String>, key: &str) -> (value: Option<&'a String>)
    ensures
        match value {
            Some(v) => label(labels@, key@) == Some(v@),
            None => label(labels@, key@) is None,
        },
{
    labels.get(&key.to_owned())
}

/// Reads the container settings of an image from its labels.
pub fn parse_image_metadata(image: RawImage) -> (parsed: Image)
    ensures
        parsed@ == image_of(image),
{
    let labels = &image.labels;
    let container_names = csv_fields(get_label(labels, CONTAINER_NAMES_LABEL));
    let health_check = match get_label(labels, HEALTH_CHECK_LABEL) {
        Some(h) => Some(h.clone()),
        None => None,
    };
    let networks = csv_fields(get_label(labels, NETWORKS_LABEL));
    let port_mappings = csv_fields(get_label(labels, PORT_MAPPINGS_LABEL));
    let volume_mounts = csv_fields(get_label(labels, VOLUME_MOUNTS_LABEL));
    Image {
        container_count: image.containers,
        container_names,
        digest: image.digest,
        health_check,
        image_id: image.id,
        networks,
        port_mappings,
        volume_mounts,
    }
}


/// What to do with a container.
#[derive(Clone, Copy, Debug, PartialEq, Eq, Structural)]
pub enum Operator {
    Add,
    Keep,
    Remove,
}

/// A planned change to one container.
pub struct ContainerChange {
    pub container_name: String,
    pub health_check: Option<String>,
    pub image_digest: String,
    pub image_id: String,
    pub networks: Vec<String>,
    pub operator: Operator,
    pub port_mappings: Vec<String>,
    pub systemd_unit: String,
    pub volume_mounts: Vec<String>,
}

/// The value of a `ContainerChange`.
pub struct ChangeView {
    pub container_name: Seq<char>,
    pub health_check: Option<Seq<char>>,
    pub image_digest: Seq<char>,
    pub image_id: Seq<char>,
    pub networks: Seq<Seq<char>>,
    pub operator: Operator,
    pub port_mappings: Seq<Seq<char>>,
    pub systemd_unit: Seq<char>,
    pub volume_mounts: Seq<Seq<char>>,
}

impl View for ContainerChange {
    type V = ChangeView;

    open spec fn view(&self) -> ChangeView {
        ChangeView {
            container_name: self.container_name@,
            health_check: optional_view(self.health_check),
            image_digest: self.image_digest@,
            image_id: self.image_id@,
            networks: self.networks.deep_view(),
            operator: self.operator,
            port_mappings: self.port_mappings.deep_view(),
            systemd_unit: self.systemd_unit@,
            volume_mounts: self.volume_mounts.deep_view(),
        }
    }
}

/// The values of a sequence of changes.
pub open spec fn change_views(changes: Seq<ContainerChange>) -> Seq<ChangeView> {
    changes.map_values(|c: ContainerChange| c@)
}

/// The values of a sequence of images.
pub open spec fn image_views(images: Seq<Image>) -> Seq<ImageView> {
    images.map_values(|i: Image| i@)
}

/// The systemd unit that runs the container `container_name`.
pub open spec fn systemd_unit_of(container_name: Seq<char>) -> Seq<char> {
    "container-"@ + container_name + ".service"@
}

/// The change `operator` to the container `container_name` of `image`.
pub open spec fn change_of(operator: Operator, image: ImageView, container_name: Seq<char>) -> ChangeView {
    ChangeView {
        container_name,
        health_check: image.health_check,
        image_digest: image.digest,
        image_id: image.image_id,
        networks: image.networks,
        operator,
        port_mappings: image.port_mappings,
        systemd_unit: systemd_unit_of(container_name),
        volume_mounts: image.volume_mounts,
    }
}

/// The change `operator` to each container of `image`, in the order of its names.
pub open spec fn image_changes(operator: Operator, image: ImageView) -> Seq<ChangeView> {
    image.container_names.map_values(|n: Seq<char>| change_of(operator, image, n))
}

/// The change `operator` to each container of each of `images`, image by image.
pub open spec fn expand(operator: Operator, images: Seq<ImageView>) -> Seq<ChangeView>
    decreases images.len(),
{
    if images.len() == 0 {
        Seq::empty()
    } else {
        expand(operator, images.drop_last()) + image_changes(operator, images.last())
    }
}

/// `sorted` with `change` put after every change whose container name comes before its
/// own or equals it.
pub open spec fn insert_by_name(sorted: Seq<ChangeView>, change: ChangeView) -> Seq<ChangeView>
    decreases sorted.len(),
{
    if sorted.len() == 0 {
        seq![change]
    } else if lex_le(sorted.last().container_name, change.container_name) {
        sorted.push(change)
    } else {
        insert_by_name(sorted.drop_last(), change).push(sorted.last())
    }
}

/// `changes` sorted by container name, changes with equal names kept in their order.
pub open spec fn sort_by_name(changes: Seq<ChangeView>) -> Seq<ChangeView>
    decreases changes.len(),
{
    if changes.len() == 0 {
        Seq::empty()
    } else {
        insert_by_name(sort_by_name(changes.drop_last()), changes.last())
    }
}

/// Whether `previous` and then `next` remove a container and add it back from an image of
/// the same digest.
pub open spec fn is_readdition(previous: ChangeView, next: ChangeView) -> bool {
    &&& previous.operator == Operator::Remove
    &&& next.operator == Operator::Add
    &&& previous.container_name == next.container_name
    &&& previous.image_digest == next.image_digest
}

/// `changes` with each removal that is directly followed by its readdition merged into
/// one change that keeps the container.
pub open spec fn merge_readditions(changes: Seq<ChangeView>) -> Seq<ChangeView>
    decreases changes.len(),
{
    if changes.len() == 0 {
        Seq::empty()
    } else {
        let merged = merge_readditions(changes.drop_last());
        let next = changes.last();
        if merged.len() > 0 && is_readdition(merged.last(), next) {
            merged.update(merged.len() - 1, ChangeView { operator: Operator::Keep, ..merged.last() })
        } else {
            merged.push(next)
        }
    }
}

/// The changes that turn the containers of `actual` images into those of `target`
/// images.
pub open spec fn planned_changes(actual: Seq<ImageView>, target: Seq<ImageView>) -> Seq<ChangeView> {
    merge_readditions(
        sort_by_name(expand(Operator::Remove, actual) + expand(Operator::Add, target)),
    )
}

/// A copy of `change`.
fn copy_change(change: &ContainerChange) -> (copy: ContainerChange)
    ensures
        copy@ == change@,
{
    ContainerChange {
        container_name: change.container_name.clone(),
        health_check: copy_optional(&change.health_check),
        image_digest: change.image_digest.clone(),
        image_id: change.image_id.clone(),
        networks: copy_strings(&change.networks),
        operator: change.operator,
        port_mappings: copy_strings(&change.port_mappings),
        systemd_unit: change.systemd_unit.clone(),
        volume_mounts: copy_strings(&change.volume_mounts),
    }
}

/// Appends the change `operator` to each container of each of `images`.
fn push_changes(changes: &mut Vec<ContainerChange>, operator: Operator, images: &Vec<Image>)
    ensures
        change_views(final(changes)@) == change_views(old(changes)@) + expand(
            operator,
            image_views(images@),
        ),
{
    let ghost start = change_views(changes@);
    let mut i: usize = 0;
    assert(image_views(images@).take(0) == Seq::<ImageView>::empty());
    while i < images.len()
        invariant
            i <= images.len(),
            change_views(changes@) == start + expand(operator, image_views(images@).take(i as int)),
        decreases images.len() - i,
    {
        let image = &images[i];
        let ghost before = change_views(changes@);
        let mut j: usize = 0;
        while j < image.container_names.len()
            invariant
                j <= image.container_names.len(),
                image == &images[i as int],
                change_views(changes@) == before + image_changes(operator, image@).take(j as int),
            decreases image.container_names.len() - j,
        {
            let name = &image.container_names[j];
            let unit = concatenate(concatenate("container-", name.as_str()).as_str(), ".service");
            let change = ContainerChange {
                container_name: name.clone(),
                health_check: copy_optional(&image.health_check),
                image_digest: image.digest.clone(),
                image_id: image.image_id.clone(),
                networks: copy_strings(&image.networks),
                operator,
                port_mappings: copy_strings(&image.port_mappings),
                systemd_unit: unit,
                volume_mounts: copy_strings(&image.volume_mounts),
            };
            let ghost old_changes = changes@;
            changes.push(change);
            proof {
                assert(change@ == change_of(operator, image@, image.container_names@[j as int]@));
                assert(change_views(changes@) == change_views(old_changes).push(change@));
                assert(image_changes(operator, image@).take(j + 1) == image_changes(
                    operator,
                    image@,
                ).take(j as int).push(change@));
            }
            j = j + 1;
        }
        proof {
            assert(image_changes(operator, image@).take(j as int) == image_changes(operator, image@));
            let views = image_views(images@);
            assert(views.take(i + 1).drop_last() == views.take(i as int));
            assert(views.take(i + 1).last() == image@);
        }
        i = i + 1;
    }
    assert(image_views(images@).take(images.len() as int) == image_views(images@));
}


/// Where `insert_by_name` puts `change`: after the first `position` changes.
proof fn lemma_insert_at(sorted: Seq<ChangeView>, change: ChangeView, position: int)
    requires
        0 <= position <= sorted.len(),
        forall|k: int|
            position <= k < sorted.len() ==> !lex_le(
                #[trigger] sorted[k].container_name,
                change.container_name,
            ),
        position == 0 || lex_le(sorted[position - 1].container_name, change.container_name),
    ensures
        insert_by_name(sorted, change) == sorted.take(position).push(change) + sorted.skip(
            position,
        ),
    decreases sorted.len(),
{
    if sorted.len() == 0 {
        assert(sorted.take(position).push(change) + sorted.skip(position) == seq![change]);
    } else if position == sorted.len() {
        assert(sorted.take(position) == sorted);
        assert(sorted.skip(position) == Seq::<ChangeView>::empty());
    } else {
        let rest = sorted.drop_last();
        assert forall|k: int| position <= k < rest.len() implies !lex_le(
            #[trigger] rest[k].container_name,
            change.container_name,
        ) by {
            assert(rest[k] == sorted[k]);
        }
        assert(!lex_le(sorted[sorted.len() - 1].container_name, change.container_name));
        lemma_insert_at(rest, change, position);
        assert(rest.take(position) == sorted.take(position));
        assert(rest.skip(position).push(sorted.last()) == sorted.skip(position));
        assert((rest.take(position).push(change) + rest.skip(position)).push(sorted.last())
            == sorted.take(position).push(change) + sorted.skip(position));
    }
}

/// `changes` sorted by container name, changes with equal names kept in their order.
#[verifier::rlimit(30)]
fn sort_changes(changes: Vec<ContainerChange>) -> (sorted: Vec<ContainerChange>)
    ensures
        change_views(sorted@) == sort_by_name(change_views(changes@)),
{
    let mut sorted: Vec<ContainerChange> = Vec::new();
    let mut rest = changes;
    let ghost input = change_views(rest@);
    let total = rest.len();
    let mut i: usize = 0;
    assert(input.take(0) == Seq::<ChangeView>::empty());
    assert(input.skip(0) == input);
    while rest.len() > 0
        invariant
            input.len() == total,
            i + rest.len() == input.len(),
            change_views(rest@) == input.skip(i as int),
            change_views(sorted@) == sort_by_name(input.take(i as int)),
        decreases rest.len(),
    {
        let ghost old_rest = rest@;
        let change = rest.remove(0);
        proof {
            assert(change_views(old_rest)[0] == input.skip(i as int)[0]);
            assert(change@ == input[i as int]);
            assert(change_views(rest@) == change_views(old_rest).drop_first());
            assert(change_views(rest@) == input.skip(i + 1));
        }
        let mut position = sorted.len();
        while position > 0 && !lex_le_exec(&sorted[position - 1].container_name, &change.container_name)
            invariant
                position <= sorted.len(),
                forall|k: int|
                    position <= k < sorted.len() ==> !lex_le(
                        #[trigger] change_views(sorted@)[k].container_name,
                        change@.container_name,
                    ),
            decreases position,
        {
            position = position - 1;
        }
        let ghost before = change_views(sorted@);
        proof {
            lemma_insert_at(before, change@, position as int);
            assert(input.take(i + 1).drop_last() == input.take(i as int));
            assert(input.take(i + 1).last() == change@);
        }
        sorted.insert(position, change);
        proof {
            assert(change_views(sorted@) == before.take(position as int).push(change@) + before.skip(
                position as int,
            ));
        }
        i = i + 1;
    }
    assert(input.take(i as int) == input);
    sorted
}

/// `changes` with each removal that is directly followed by its readdition merged into a
/// change that keeps the container.
fn merge_changes(changes: &Vec<ContainerChange>) -> (merged: Vec<ContainerChange>)
    ensures
        change_views(merged@) == merge_readditions(change_views(changes@)),
{
    let ghost input = change_views(changes@);
    let mut merged: Vec<ContainerChange> = Vec::new();
    let mut i: usize = 0;
    assert(input.take(0) == Seq::<ChangeView>::empty());
    while i < changes.len()
        invariant
            i <= changes.len(),
            input == change_views(changes@),
            change_views(merged@) == merge_readditions(input.take(i as int)),
        decreases changes.len() - i,
    {
        let next = &changes[i];
        let ghost before = change_views(merged@);
        proof {
            assert(input.take(i + 1).drop_last() == input.take(i as int));
            assert(input.take(i + 1).last() == next@);
        }
        let n = merged.len();
        if n > 0 && merged[n - 1].operator == Operator::Remove && next.operator == Operator::Add
            && merged[n - 1].container_name == next.container_name && merged[n - 1].image_digest
            == next.image_digest {
            let mut previous = merged.pop().unwrap();
            previous.operator = Operator::Keep;
            merged.push(previous);
            assert(change_views(merged@) == before.update(
                n - 1,
                ChangeView { operator: Operator::Keep, ..before.last() },
            ));
        } else {
            merged.push(copy_change(next));
            assert(change_views(merged@) == before.push(next@));
        }
        i = i + 1;
    }
    assert(input.take(changes.len() as int) == input);
    merged
}

/// The changes that turn the containers of the `actual` images into those of the `target`
/// images, each of which lists an image at most once: each container of an actual image is removed and each container of a target
/// image added, in the order of container names (removals of a name before its additions),
/// where removing a container and adding it back from an image of the same digest becomes
/// keeping it.
pub fn plan_changes(actual: &Vec<Image>, target: &Vec<Image>) -> (changes: Vec<ContainerChange>)
    requires
        image_views(actual@).no_duplicates(),
        image_views(target@).no_duplicates(),
    ensures
        change_views(changes@) == planned_changes(image_views(actual@), image_views(target@)),
{
    let mut changes: Vec<ContainerChange> = Vec::new();
    push_changes(&mut changes, Operator::Remove, actual);
    push_changes(&mut changes, Operator::Add, target);
    assert(change_views(Seq::<ContainerChange>::empty()) == Seq::<ChangeView>::empty());
    let sorted = sort_changes(changes);
    merge_changes(&sorted)
}


/// Whether the container names of `changes` never decrease.
pub open spec fn is_sorted_by_name(changes: Seq<ChangeView>) -> bool {
    forall|i: int, j: int|
        0 <= i < j < changes.len() ==> lex_le(
            #[trigger] changes[i].container_name,
            #[trigger] changes[j].container_name,
        )
}

/// Whether no container name of `changes` comes after `bound`.
pub open spec fn names_at_most(changes: Seq<ChangeView>, bound: Seq<char>) -> bool {
    forall|i: int| 0 <= i < changes.len() ==> lex_le(#[trigger] changes[i].container_name, bound)
}

/// Inserting keeps every name at most `bound` where the inserted one is.
proof fn lemma_insert_bounded(sorted: Seq<ChangeView>, change: ChangeView, bound: Seq<char>)
    requires
        names_at_most(sorted, bound),
        lex_le(change.container_name, bound),
    ensures
        names_at_most(insert_by_name(sorted, change), bound),
    decreases sorted.len(),
{
    if sorted.len() > 0 && !lex_le(sorted.last().container_name, change.container_name) {
        lemma_insert_bounded(sorted.drop_last(), change, bound);
    }
}

/// Inserting into changes sorted by name keeps them sorted.
proof fn lemma_insert_sorted(sorted: Seq<ChangeView>, change: ChangeView)
    requires
        is_sorted_by_name(sorted),
    ensures
        is_sorted_by_name(insert_by_name(sorted, change)),
    decreases sorted.len(),
{
    if sorted.len() > 0 {
        let last = sorted.last();
        if lex_le(last.container_name, change.container_name) {
            assert forall|i: int| 0 <= i < sorted.len() implies lex_le(
                #[trigger] sorted[i].container_name,
                change.container_name,
            ) by {
                if i < sorted.len() - 1 {
                    crate::text::lemma_lex_transitive(
                        sorted[i].container_name,
                        last.container_name,
                        change.container_name,
                    );
                }
            }
        } else {
            let rest = sorted.drop_last();
            lemma_insert_sorted(rest, change);
            crate::text::lemma_lex_total(last.container_name, change.container_name);
            assert(names_at_most(rest, last.container_name));
            lemma_insert_bounded(rest, change, last.container_name);
        }
    }
}

/// Sorting sorts by name.
proof fn lemma_sort_sorted(changes: Seq<ChangeView>)
    ensures
        is_sorted_by_name(sort_by_name(changes)),
    decreases changes.len(),
{
    if changes.len() > 0 {
        lemma_sort_sorted(changes.drop_last());
        lemma_insert_sorted(sort_by_name(changes.drop_last()), changes.last());
    }
}

/// Merging keeps every name at most `bound`.
proof fn lemma_merge_bounded(changes: Seq<ChangeView>, bound: Seq<char>)
    requires
        names_at_most(changes, bound),
    ensures
        names_at_most(merge_readditions(changes), bound),
    decreases changes.len(),
{
    if changes.len() > 0 {
        lemma_merge_bounded(changes.drop_last(), bound);
    }
}

/// Merging keeps changes sorted by name.
proof fn lemma_merge_sorted(changes: Seq<ChangeView>)
    requires
        is_sorted_by_name(changes),
    ensures
        is_sorted_by_name(merge_readditions(changes)),
    decreases changes.len(),
{
    if changes.len() > 0 {
        let rest = changes.drop_last();
        let next = changes.last();
        lemma_merge_sorted(rest);
        assert(names_at_most(rest, next.container_name));
        lemma_merge_bounded(rest, next.container_name);
    }
}

/// Inserting adds the change and nothing else.
proof fn lemma_insert_multiset(sorted: Seq<ChangeView>, change: ChangeView)
    ensures
        insert_by_name(sorted, change).to_multiset() =~= sorted.to_multiset().insert(change),
    decreases sorted.len(),
{
    broadcast use vstd::seq_lib::group_to_multiset_ensures;

    if sorted.len() > 0 && !lex_le(sorted.last().container_name, change.container_name) {
        let rest = sorted.drop_last();
        lemma_insert_multiset(rest, change);
        assert(sorted == rest.push(sorted.last()));
    }
}

/// Sorting changes by container name neither loses nor duplicates one.
pub proof fn lemma_sort_keeps_changes(changes: Seq<ChangeView>)
    ensures
        sort_by_name(changes).to_multiset() =~= changes.to_multiset(),
    decreases changes.len(),
{
    broadcast use vstd::seq_lib::group_to_multiset_ensures;

    if changes.len() > 0 {
        lemma_sort_keeps_changes(changes.drop_last());
        lemma_insert_multiset(sort_by_name(changes.drop_last()), changes.last());
        assert(changes == changes.drop_last().push(changes.last()));
    }
}

/// Whether `change` is the change `operator` to a container of one of `images`.
pub open spec fn comes_from(change: ChangeView, operator: Operator, images: Seq<ImageView>) -> bool {
    exists|i: int, j: int|
        #![trigger images[i].container_names[j]]
        0 <= i < images.len() && 0 <= j < images[i].container_names.len() && change == change_of(
            operator,
            images[i],
            images[i].container_names[j],
        )
}

/// Whether one of `images` has a container named `name` and the digest `digest`.
pub open spec fn has_container(images: Seq<ImageView>, name: Seq<char>, digest: Seq<char>) -> bool {
    exists|i: int, j: int|
        #![trigger images[i].container_names[j]]
        0 <= i < images.len() && 0 <= j < images[i].container_names.len()
            && images[i].container_names[j] == name && images[i].digest == digest
}

/// Each change of an expansion is the change to a container of one of the images.
proof fn lemma_expand_members(operator: Operator, images: Seq<ImageView>)
    ensures
        forall|k: int|
            0 <= k < expand(operator, images).len() ==> comes_from(
                #[trigger] expand(operator, images)[k],
                operator,
                images,
            ),
    decreases images.len(),
{
    if images.len() > 0 {
        let rest = images.drop_last();
        lemma_expand_members(operator, rest);
        let prefix = expand(operator, rest);
        let last = images.last();
        let all = expand(operator, images);
        assert forall|k: int| 0 <= k < all.len() implies comes_from(#[trigger] all[k], operator, images) by {
            if k < prefix.len() {
                assert(all[k] == prefix[k]);
                assert(comes_from(prefix[k], operator, rest));
                let (i, j) = choose|i: int, j: int|
                    #![trigger rest[i].container_names[j]]
                    0 <= i < rest.len() && 0 <= j < rest[i].container_names.len() && prefix[k]
                        == change_of(operator, rest[i], rest[i].container_names[j]);
                assert(images[i] == rest[i]);
                assert(images[i].container_names[j] == rest[i].container_names[j]);
            } else {
                let j = k - prefix.len();
                assert(all[k] == image_changes(operator, last)[j]);
                assert(images[images.len() - 1] == last);
                assert(images[images.len() - 1].container_names[j] == last.container_names[j]);
            }
        }
    }
}

/// What merging keeps of `changes` (none of which keeps a container): each change that
/// does not keep a container is one of `changes`; each that keeps one is the removal of a
/// change with an addition of the same container and digest among `changes`.
#[verifier::rlimit(30)]
proof fn lemma_merge_members(changes: Seq<ChangeView>)
    requires
        forall|i: int| 0 <= i < changes.len() ==> (#[trigger] changes[i]).operator != Operator::Keep,
    ensures
        forall|k: int|
            0 <= k < merge_readditions(changes).len() ==> {
                let c = #[trigger] merge_readditions(changes)[k];
                if c.operator == Operator::Keep {
                    &&& changes.contains(ChangeView { operator: Operator::Remove, ..c })
                    &&& exists|j: int|
                        0 <= j < changes.len() && (#[trigger] changes[j]).operator == Operator::Add
                            && changes[j].container_name == c.container_name
                            && changes[j].image_digest == c.image_digest
                } else {
                    changes.contains(c)
                }
            },
    decreases changes.len(),
{
    if changes.len() > 0 {
        let rest = changes.drop_last();
        let next = changes.last();
        assert forall|i: int| 0 <= i < rest.len() implies (#[trigger] rest[i]).operator != Operator::Keep by {
            assert(rest[i] == changes[i]);
        }
        lemma_merge_members(rest);
        let merged = merge_readditions(rest);
        let all = merge_readditions(changes);
        assert forall|x: ChangeView| rest.contains(x) implies changes.contains(x) by {
            let i = choose|i: int| 0 <= i < rest.len() && rest[i] == x;
            assert(changes[i] == x);
        }
        assert(changes[changes.len() - 1] == next);
        assert forall|k: int| 0 <= k < all.len() implies {
            let c = #[trigger] all[k];
            if c.operator == Operator::Keep {
                &&& changes.contains(ChangeView { operator: Operator::Remove, ..c })
                &&& exists|j: int|
                    0 <= j < changes.len() && (#[trigger] changes[j]).operator == Operator::Add
                        && changes[j].container_name == c.container_name
                        && changes[j].image_digest == c.image_digest
            } else {
                changes.contains(c)
            }
        } by {
            if k < merged.len() && !(k == merged.len() - 1 && merged.len() > 0 && is_readdition(
                merged.last(),
                next,
            )) {
                let c = merged[k];
                assert(all[k] == c);
                if c.operator == Operator::Keep {
                    let j = choose|j: int|
                        0 <= j < rest.len() && (#[trigger] rest[j]).operator == Operator::Add
                            && rest[j].container_name == c.container_name && rest[j].image_digest
                            == c.image_digest;
                    assert(changes[j] == rest[j]);
                }
            } else if k < merged.len() {
                let previous = merged.last();
                assert(merged[merged.len() - 1] == previous);
                assert(previous.operator == Operator::Remove);
                assert(rest.contains(previous));
                assert(ChangeView { operator: Operator::Remove, ..all[k] } == previous);
            } else {
                assert(all[k] == next);
            }
        }
    }
}

/// Every change of a plan comes from the images: a removal from an actual image, an
/// addition from a target image, and a container is kept only where an actual image and a
/// target image of the same digest both have it.
#[verifier::rlimit(30)]
pub proof fn lemma_plan_sound(actual: Seq<ImageView>, target: Seq<ImageView>)
    ensures
        forall|k: int|
            0 <= k < planned_changes(actual, target).len() ==> {
                let c = #[trigger] planned_changes(actual, target)[k];
                match c.operator {
                    Operator::Remove => comes_from(c, Operator::Remove, actual),
                    Operator::Add => comes_from(c, Operator::Add, target),
                    Operator::Keep => comes_from(
                        ChangeView { operator: Operator::Remove, ..c },
                        Operator::Remove,
                        actual,
                    ) && has_container(target, c.container_name, c.image_digest),
                }
            },
{
    broadcast use vstd::seq_lib::group_to_multiset_ensures;

    let removals = expand(Operator::Remove, actual);
    let additions = expand(Operator::Add, target);
    let all = removals + additions;
    let sorted = sort_by_name(all);
    lemma_expand_members(Operator::Remove, actual);
    lemma_expand_members(Operator::Add, target);
    lemma_sort_keeps_changes(all);
    assert forall|x: ChangeView| sorted.contains(x) implies all.contains(x) by {
        assert(sorted.to_multiset().count(x) > 0);
        assert(all.to_multiset().count(x) > 0);
    }
    assert forall|x: ChangeView| all.contains(x) implies (x.operator == Operator::Remove
        && comes_from(x, Operator::Remove, actual)) || (x.operator == Operator::Add && comes_from(
        x,
        Operator::Add,
        target,
    )) by {
        let i = choose|i: int| 0 <= i < all.len() && all[i] == x;
        if i < removals.len() {
            assert(all[i] == removals[i]);
            assert(comes_from(removals[i], Operator::Remove, actual));
        } else {
            assert(all[i] == additions[i - removals.len()]);
            assert(comes_from(additions[i - removals.len()], Operator::Add, target));
        }
    }
    assert forall|i: int| 0 <= i < sorted.len() implies (#[trigger] sorted[i]).operator
        != Operator::Keep by {
        assert(sorted.contains(sorted[i]));
    }
    lemma_merge_members(sorted);
    let plan = merge_readditions(sorted);
    assert forall|k: int| 0 <= k < plan.len() implies {
        let c = #[trigger] plan[k];
        match c.operator {
            Operator::Remove => comes_from(c, Operator::Remove, actual),
            Operator::Add => comes_from(c, Operator::Add, target),
            Operator::Keep => comes_from(
                ChangeView { operator: Operator::Remove, ..c },
                Operator::Remove,
                actual,
            ) && has_container(target, c.container_name, c.image_digest),
        }
    } by {
        let c = plan[k];
        if c.operator == Operator::Keep {
            let removal = ChangeView { operator: Operator::Remove, ..c };
            assert(sorted.contains(removal));
            let j = choose|j: int|
                0 <= j < sorted.len() && (#[trigger] sorted[j]).operator == Operator::Add
                    && sorted[j].container_name == c.container_name && sorted[j].image_digest
                    == c.image_digest;
            assert(sorted.contains(sorted[j]));
            let addition = sorted[j];
            assert(comes_from(addition, Operator::Add, target));
            let (a, b) = choose|a: int, b: int|
                #![trigger target[a].container_names[b]]
                0 <= a < target.len() && 0 <= b < target[a].container_names.len() && addition
                    == change_of(Operator::Add, target[a], target[a].container_names[b]);
            assert(target[a].container_names[b] == c.container_name);
        } else {
            assert(sorted.contains(c));
        }
    }
}

/// `change` as keeping its container.
pub open spec fn kept(change: ChangeView) -> ChangeView {
    ChangeView { operator: Operator::Keep, ..change }
}

/// `change` as adding its container.
pub open spec fn twin(change: ChangeView) -> ChangeView {
    ChangeView { operator: Operator::Add, ..change }
}

/// `sorted` with the twin of each change whose name is in `names` right after it.
spec fn with_twins(sorted: Seq<ChangeView>, names: Set<Seq<char>>) -> Seq<ChangeView>
    decreases sorted.len(),
{
    if sorted.len() == 0 {
        Seq::empty()
    } else {
        let prefix = with_twins(sorted.drop_last(), names);
        if names.contains(sorted.last().container_name) {
            prefix + seq![sorted.last(), twin(sorted.last())]
        } else {
            prefix.push(sorted.last())
        }
    }
}

/// Whether the names of `changes` increase strictly.
spec fn strictly_sorted(changes: Seq<ChangeView>) -> bool {
    forall|i: int, j: int|
        0 <= i < j < changes.len() ==> lex_le(
            #[trigger] changes[i].container_name,
            #[trigger] changes[j].container_name,
        ) && changes[i].container_name != changes[j].container_name
}

/// Inserting a change in front of a suffix whose names all come after its own.
proof fn lemma_insert_skips(prefix: Seq<ChangeView>, suffix: Seq<ChangeView>, change: ChangeView)
    requires
        forall|k: int|
            0 <= k < suffix.len() ==> !lex_le(#[trigger] suffix[k].container_name, change.container_name),
    ensures
        insert_by_name(prefix + suffix, change) == insert_by_name(prefix, change) + suffix,
    decreases suffix.len(),
{
    if suffix.len() == 0 {
        assert(prefix + suffix == prefix);
        assert(insert_by_name(prefix, change) + suffix == insert_by_name(prefix, change));
    } else {
        let rest = suffix.drop_last();
        assert forall|k: int| 0 <= k < rest.len() implies !lex_le(
            #[trigger] rest[k].container_name,
            change.container_name,
        ) by {
            assert(rest[k] == suffix[k]);
        }
        lemma_insert_skips(prefix, rest, change);
        assert((prefix + suffix).drop_last() == prefix + rest);
        assert((prefix + suffix).last() == suffix.last());
        assert(suffix[suffix.len() - 1] == suffix.last());
        assert(insert_by_name(prefix, change) + suffix == (insert_by_name(prefix, change) + rest).push(
            suffix.last(),
        ));
    }
}

/// Twins are put only after changes whose names are in `names`.
proof fn lemma_with_twins_names(sorted: Seq<ChangeView>, names: Set<Seq<char>>, more: Set<Seq<char>>)
    requires
        forall|k: int|
            0 <= k < sorted.len() ==> (names.contains(#[trigger] sorted[k].container_name)
                <==> more.contains(sorted[k].container_name)),
    ensures
        with_twins(sorted, names) == with_twins(sorted, more),
    decreases sorted.len(),
{
    if sorted.len() > 0 {
        let rest = sorted.drop_last();
        assert forall|k: int| 0 <= k < rest.len() implies (names.contains(
            #[trigger] rest[k].container_name,
        ) <==> more.contains(rest[k].container_name)) by {
            assert(rest[k] == sorted[k]);
        }
        lemma_with_twins_names(rest, names, more);
        assert(sorted[sorted.len() - 1] == sorted.last());
    }
}

/// Inserting the twin of a change of `sorted` puts it right after that change.
#[verifier::rlimit(30)]
proof fn lemma_insert_twin(sorted: Seq<ChangeView>, names: Set<Seq<char>>, removal: ChangeView)
    requires
        strictly_sorted(sorted),
        sorted.contains(removal),
        !names.contains(removal.container_name),
    ensures
        insert_by_name(with_twins(sorted, names), twin(removal)) == with_twins(
            sorted,
            names.insert(removal.container_name),
        ),
    decreases sorted.len(),
{
    let x = twin(removal);
    let rest = sorted.drop_last();
    let last = sorted.last();
    let prefix = with_twins(rest, names);
    let more = names.insert(removal.container_name);
    let q = choose|q: int| 0 <= q < sorted.len() && sorted[q] == removal;
    assert(sorted[sorted.len() - 1] == last);
    assert forall|i: int, j: int| 0 <= i < j < rest.len() implies lex_le(
        #[trigger] rest[i].container_name,
        #[trigger] rest[j].container_name,
    ) && rest[i].container_name != rest[j].container_name by {
        assert(rest[i] == sorted[i] && rest[j] == sorted[j]);
    }
    if q == sorted.len() - 1 {
        assert(removal == last);
        assert forall|k: int| 0 <= k < rest.len() implies (names.contains(
            #[trigger] rest[k].container_name,
        ) <==> more.contains(rest[k].container_name)) by {
            assert(rest[k] == sorted[k]);
            assert(sorted[k].container_name != sorted[sorted.len() - 1].container_name);
        }
        lemma_with_twins_names(rest, names, more);
        crate::text::lemma_lex_total(last.container_name, last.container_name);
        assert(with_twins(sorted, names) == prefix.push(last));
        assert(prefix.push(last).drop_last() == prefix);
        assert(insert_by_name(prefix.push(last), x) == prefix.push(last).push(x));
        assert(prefix.push(last).push(x) == prefix + seq![last, twin(last)]);
    } else {
        assert(rest[q] == removal);
        assert(rest.contains(removal));
        lemma_insert_twin(rest, names, removal);
        assert(lex_le(sorted[q].container_name, sorted[sorted.len() - 1].container_name));
        assert(sorted[q].container_name != sorted[sorted.len() - 1].container_name);
        if lex_le(last.container_name, x.container_name) {
            crate::text::lemma_lex_antisymmetric(last.container_name, x.container_name);
        }
        let tail = if names.contains(last.container_name) {
            seq![last, twin(last)]
        } else {
            seq![last]
        };
        assert(with_twins(sorted, names) == prefix + tail);
        assert forall|k: int| 0 <= k < tail.len() implies !lex_le(
            #[trigger] tail[k].container_name,
            x.container_name,
        ) by {
            assert(tail[k].container_name == last.container_name);
        }
        lemma_insert_skips(prefix, tail, x);
        assert(more.contains(last.container_name) == names.contains(last.container_name));
        assert(with_twins(sorted, more) == with_twins(rest, more) + tail);
    }
}

/// The additions of images are the twins of their removals.
proof fn lemma_expand_twins(images: Seq<ImageView>)
    ensures
        expand(Operator::Add, images) == expand(Operator::Remove, images).map_values(
            |c: ChangeView| twin(c),
        ),
    decreases images.len(),
{
    if images.len() > 0 {
        lemma_expand_twins(images.drop_last());
        let last = images.last();
        assert(image_changes(Operator::Add, last) == image_changes(Operator::Remove, last).map_values(
            |c: ChangeView| twin(c),
        ));
        assert(expand(Operator::Remove, images).map_values(|c: ChangeView| twin(c)) == expand(
            Operator::Remove,
            images.drop_last(),
        ).map_values(|c: ChangeView| twin(c)) + image_changes(Operator::Remove, last).map_values(
            |c: ChangeView| twin(c),
        ));
    }
}

/// Merging a sorted sequence of removals, each followed by its twin, keeps every container.
proof fn lemma_merge_twins(sorted: Seq<ChangeView>, names: Set<Seq<char>>)
    requires
        forall|k: int| 0 <= k < sorted.len() ==> (#[trigger] sorted[k]).operator == Operator::Remove,
        forall|k: int| 0 <= k < sorted.len() ==> names.contains(#[trigger] sorted[k].container_name),
    ensures
        merge_readditions(with_twins(sorted, names)) == sorted.map_values(|c: ChangeView| kept(c)),
    decreases sorted.len(),
{
    if sorted.len() > 0 {
        let rest = sorted.drop_last();
        let last = sorted.last();
        assert(sorted[sorted.len() - 1] == last);
        assert forall|k: int| 0 <= k < rest.len() implies (#[trigger] rest[k]).operator
            == Operator::Remove by {
            assert(rest[k] == sorted[k]);
        }
        assert forall|k: int| 0 <= k < rest.len() implies names.contains(
            #[trigger] rest[k].container_name,
        ) by {
            assert(rest[k] == sorted[k]);
        }
        lemma_merge_twins(rest, names);
        let prefix = with_twins(rest, names);
        let all = prefix + seq![last, twin(last)];
        assert(with_twins(sorted, names) == all);
        assert(all.drop_last() == prefix.push(last));
        assert(all.last() == twin(last));
        assert(prefix.push(last).drop_last() == prefix);
        assert(prefix.push(last).last() == last);
        let merged = merge_readditions(prefix);
        assert(merge_readditions(prefix.push(last)) == merged.push(last));
        assert(is_readdition(merged.push(last).last(), twin(last)));
        assert(merge_readditions(all) == merged.push(last).update(merged.len() as int, kept(last)));
        assert(merged.push(last).update(merged.len() as int, kept(last)) == merged.push(kept(last)));
        assert(sorted.map_values(|c: ChangeView| kept(c)) == rest.map_values(|c: ChangeView| kept(c)).push(
            kept(last),
        ));
    }
}

/// The names of the first `count` changes of `changes`.
spec fn names_before(changes: Seq<ChangeView>, count: int) -> Set<Seq<char>> {
    Set::new(|name: Seq<char>| exists|k: int| 0 <= k < count && #[trigger] changes[k].container_name == name)
}

/// Sorting removals followed by their twins puts each twin right after its removal.
proof fn lemma_sort_twins(removals: Seq<ChangeView>, count: int)
    requires
        0 <= count <= removals.len(),
        forall|i: int, j: int|
            0 <= i < j < removals.len() ==> (#[trigger] removals[i]).container_name
                != (#[trigger] removals[j]).container_name,
        strictly_sorted(sort_by_name(removals)),
        forall|k: int| 0 <= k < removals.len() ==> sort_by_name(removals).contains(#[trigger] removals[k]),
    ensures
        sort_by_name(removals + removals.map_values(|c: ChangeView| twin(c)).take(count))
            == with_twins(sort_by_name(removals), names_before(removals, count)),
    decreases count,
{
    let sorted = sort_by_name(removals);
    let twins = removals.map_values(|c: ChangeView| twin(c));
    if count == 0 {
        assert(removals + twins.take(0) == removals);
        assert forall|k: int| 0 <= k < sorted.len() implies (Set::<Seq<char>>::empty().contains(
            #[trigger] sorted[k].container_name,
        ) <==> names_before(removals, 0).contains(sorted[k].container_name)) by {}
        lemma_with_twins_names(sorted, Set::empty(), names_before(removals, 0));
        lemma_with_twins_empty(sorted);
    } else {
        lemma_sort_twins(removals, count - 1);
        let removal = removals[count - 1];
        let before = removals + twins.take(count - 1);
        assert((removals + twins.take(count)).drop_last() == before);
        assert((removals + twins.take(count)).last() == twin(removal));
        assert(!names_before(removals, count - 1).contains(removal.container_name)) by {
            if names_before(removals, count - 1).contains(removal.container_name) {
                let k = choose|k: int| 0 <= k < count - 1 && #[trigger] removals[k].container_name
                    == removal.container_name;
                assert(removals[k].container_name != removals[count - 1].container_name);
            }
        }
        lemma_insert_twin(sorted, names_before(removals, count - 1), removal);
        assert(names_before(removals, count - 1).insert(removal.container_name) =~= names_before(
            removals,
            count,
        )) by {
            assert forall|name: Seq<char>| names_before(removals, count).contains(name) implies names_before(
                removals,
                count - 1,
            ).insert(removal.container_name).contains(name) by {
                let k = choose|k: int| 0 <= k < count && #[trigger] removals[k].container_name == name;
                if k < count - 1 {
                    assert(names_before(removals, count - 1).contains(name));
                }
            }
            assert forall|name: Seq<char>| names_before(removals, count - 1).insert(
                removal.container_name,
            ).contains(name) implies names_before(removals, count).contains(name) by {
                if name == removal.container_name {
                    assert(removals[count - 1].container_name == name);
                } else {
                    let k = choose|k: int| 0 <= k < count - 1 && #[trigger] removals[k].container_name
                        == name;
                    assert(removals[k].container_name == name);
                }
            }
        }
    }
}

/// With no name, nothing gets a twin.
proof fn lemma_with_twins_empty(sorted: Seq<ChangeView>)
    ensures
        with_twins(sorted, Set::empty()) == sorted,
    decreases sorted.len(),
{
    if sorted.len() > 0 {
        lemma_with_twins_empty(sorted.drop_last());
    }
}

/// Deploying the images that already run keeps every container, in the order of their
/// names, where no two containers share a name.
#[verifier::rlimit(30)]
pub proof fn lemma_redeploy_keeps_all(images: Seq<ImageView>)
    requires
        forall|i: int, j: int|
            0 <= i < j < expand(Operator::Remove, images).len() ==> (#[trigger] expand(
                Operator::Remove,
                images,
            )[i]).container_name != (#[trigger] expand(Operator::Remove, images)[j]).container_name,
    ensures
        planned_changes(images, images) == sort_by_name(expand(Operator::Remove, images)).map_values(
            |c: ChangeView| kept(c),
        ),
{
    broadcast use vstd::seq_lib::group_to_multiset_ensures;

    let removals = expand(Operator::Remove, images);
    let sorted = sort_by_name(removals);
    lemma_expand_twins(images);
    lemma_expand_members(Operator::Remove, images);
    lemma_sort_keeps_changes(removals);
    lemma_sort_sorted(removals);
    assert(removals.no_duplicates());
    removals.lemma_multiset_has_no_duplicates();
    sorted.lemma_multiset_has_no_duplicates_conv();
    assert forall|x: ChangeView| sorted.contains(x) implies removals.contains(x) by {
        assert(sorted.to_multiset().count(x) > 0);
    }
    assert forall|k: int| 0 <= k < removals.len() implies sorted.contains(#[trigger] removals[k]) by {
        assert(removals.to_multiset().count(removals[k]) > 0);
    }
    assert forall|i: int, j: int| 0 <= i < j < sorted.len() implies lex_le(
        #[trigger] sorted[i].container_name,
        #[trigger] sorted[j].container_name,
    ) && sorted[i].container_name != sorted[j].container_name by {
        assert(sorted.contains(sorted[i]) && sorted.contains(sorted[j]));
        let a = choose|a: int| 0 <= a < removals.len() && removals[a] == sorted[i];
        let b = choose|b: int| 0 <= b < removals.len() && removals[b] == sorted[j];
        if a != b {
            if a < b {
                assert(removals[a].container_name != removals[b].container_name);
            } else {
                assert(removals[b].container_name != removals[a].container_name);
            }
        }
    }
    lemma_sort_twins(removals, removals.len() as int);
    let twins = removals.map_values(|c: ChangeView| twin(c));
    assert(twins.take(removals.len() as int) == twins);
    let names = names_before(removals, removals.len() as int);
    assert forall|k: int| 0 <= k < sorted.len() implies (#[trigger] sorted[k]).operator
        == Operator::Remove && names.contains(sorted[k].container_name) by {
        assert(sorted.contains(sorted[k]));
        let a = choose|a: int| 0 <= a < removals.len() && removals[a] == sorted[k];
        assert(comes_from(removals[a], Operator::Remove, images));
        assert(removals[a].container_name == sorted[k].container_name);
    }
    lemma_merge_twins(sorted, names);
}

/// A plan takes the containers in the order of their names.
pub proof fn lemma_plan_sorted(actual: Seq<ImageView>, target: Seq<ImageView>)
    ensures
        is_sorted_by_name(planned_changes(actual, target)),
{
    let all = expand(Operator::Remove, actual) + expand(Operator::Add, target);
    lemma_sort_sorted(all);
    lemma_merge_sorted(sort_by_name(all));
}


/// `flag` before each of `values`.
pub open spec fn flagged(flag: Seq<char>, values: Seq<Seq<char>>) -> Seq<Seq<char>>
    decreases values.len(),
{
    if values.len() == 0 {
        Seq::empty()
    } else {
        flagged(flag, values.drop_last()) + seq![flag, values.last()]
    }
}

/// Appends `flag` before each of `values` to `arguments`.
fn push_flagged(arguments: &mut Vec<String>, flag: &str, values: &Vec<String>)
    ensures
        final(arguments).deep_view() == old(arguments).deep_view() + flagged(
            flag@,
            values.deep_view(),
        ),
{
    let ghost start = arguments.deep_view();
    let mut i: usize = 0;
    assert(values.deep_view().take(0) == Seq::<Seq<char>>::empty());
    while i < values.len()
        invariant
            i <= values.len(),
            arguments.deep_view() == start + flagged(flag@, values.deep_view().take(i as int)),
        decreases values.len() - i,
    {
        let ghost before = arguments.deep_view();
        arguments.push(flag.to_owned());
        arguments.push(values[i].clone());
        proof {
            assert(arguments.deep_view() == before + seq![flag@, values[i as int]@]);
            let taken = values.deep_view().take(i + 1);
            assert(taken.drop_last() == values.deep_view().take(i as int));
            assert(taken.last() == values[i as int]@);
        }
        i = i + 1;
    }
    assert(values.deep_view().take(values.len() as int) == values.deep_view());
}

/// The strings of `literals`, in order.
pub fn strings(literals: &[&str]) -> (r: Vec<String>)
    ensures
        r.deep_view() == literals@.map_values(|l: &str| l@),
{
    let mut r: Vec<String> = Vec::new();
    let mut i: usize = 0;
    while i < literals.len()
        invariant
            i <= literals.len(),
            r.deep_view() == literals@.take(i as int).map_values(|l: &str| l@),
        decreases literals.len() - i,
    {
        r.push(literals[i].to_owned());
        assert(literals@.take(i + 1).map_values(|l: &str| l@) == literals@.take(i as int).map_values(
            |l: &str| l@,
        ).push(literals@[i as int]@));
        i = i + 1;
    }
    assert(literals@.take(literals.len() as int) == literals@);
    r
}

/// The arguments of `podman` that create the container of `change`.
pub open spec fn create_arguments(change: ChangeView) -> Seq<Seq<char>> {
    seq!["create"@] + flagged(
        "--health-cmd"@,
        match change.health_check {
            Some(h) => seq![h],
            None => Seq::empty(),
        },
    ) + seq!["--name"@, change.container_name] + flagged("--network"@, change.networks) + flagged(
        "--publish"@,
        change.port_mappings,
    ) + flagged("--volume"@, change.volume_mounts) + seq!["--"@, change.image_id]
}

/// The command that checks whether `network` exists; its exit code 1 means that it does
/// not.
pub open spec fn network_exists_command(network: Seq<char>) -> CommandView {
    CommandView {
        program: "podman"@,
        arguments: seq!["network"@, "exists"@, "--"@, network],
        current_folder: None,
    }
}

/// The command that creates `network`.
pub open spec fn network_create_command(network: Seq<char>) -> CommandView {
    CommandView {
        program: "podman"@,
        arguments: seq!["network"@, "create"@, "--"@, network],
        current_folder: None,
    }
}

/// The commands that add the container of a change: each network is checked and created
/// if missing, then the container created, its systemd unit generated and enabled, and, if
/// the image has a health check, that check run until it passes.
pub struct AddContainer {
    pub networks: Vec<(CommandLine, CommandLine)>,
    pub create: CommandLine,
    pub generate_unit: CommandLine,
    pub enable_unit: CommandLine,
    pub health_check: Option<CommandLine>,
}

/// The commands that remove the container of a change: its systemd unit is disabled, the
/// unit file removed and the container removed.
pub struct RemoveContainer {
    pub disable_unit: CommandLine,
    pub unit_file: String,
    pub remove: CommandLine,
}

/// The network commands of `networks`, each pair checking and then creating one network.
pub open spec fn network_commands(networks: Seq<Seq<char>>) -> Seq<(CommandView, CommandView)> {
    networks.map_values(|n: Seq<char>| (network_exists_command(n), network_create_command(n)))
}

/// The commands that add the container of `change`.
pub open spec fn add_container_spec(change: ChangeView, plan: AddContainer) -> bool {
    &&& plan.networks@.map_values(|p: (CommandLine, CommandLine)| (p.0@, p.1@)) == network_commands(
        change.networks,
    )
    &&& plan.create@ == CommandView {
        program: "podman"@,
        arguments: create_arguments(change),
        current_folder: None,
    }
    &&& plan.generate_unit@ == CommandView {
        program: "podman"@,
        arguments: seq![
            "generate"@,
            "systemd"@,
            "--files"@,
            "--name"@,
            "--restart-policy"@,
            "always"@,
            "--"@,
            change.container_name,
        ],
        current_folder: Some(USER_SYSTEMD_FOLDER@),
    }
    &&& plan.enable_unit@ == CommandView {
        program: "systemctl"@,
        arguments: seq!["--now"@, "--user"@, "enable"@, change.systemd_unit],
        current_folder: None,
    }
    &&& match change.health_check {
        None => plan.health_check is None,
        Some(_) => plan.health_check matches Some(c) && c@ == CommandView {
            program: "podman"@,
            arguments: seq!["healthcheck"@, "run"@, change.container_name],
            current_folder: None,
        },
    }
}

/// The commands that add the container of `change`.
pub fn add_container(change: &ContainerChange) -> (plan: AddContainer)
    ensures
        add_container_spec(change@, plan),
{
    let mut networks: Vec<(CommandLine, CommandLine)> = Vec::new();
    let mut i: usize = 0;
    while i < change.networks.len()
        invariant
            i <= change.networks.len(),
            networks@.map_values(|p: (CommandLine, CommandLine)| (p.0@, p.1@)) == network_commands(
                change.networks.deep_view().take(i as int),
            ),
        decreases change.networks.len() - i,
    {
        let network = &change.networks[i];
        let mut exists = strings(&["network", "exists", "--"]);
        let ghost e = exists.deep_view();
        exists.push(network.clone());
        assert(exists.deep_view() == e.push(network@));
        assert(exists.deep_view() == seq!["network"@, "exists"@, "--"@, network@]);
        let mut create = strings(&["network", "create", "--"]);
        let ghost c = create.deep_view();
        create.push(network.clone());
        assert(create.deep_view() == c.push(network@));
        assert(create.deep_view() == seq!["network"@, "create"@, "--"@, network@]);
        let ghost before = networks@;
        networks.push((CommandLine::new("podman", exists), CommandLine::new("podman", create)));
        proof {
            assert(networks@ == before.push(networks@.last()));
            assert(change.networks.deep_view().take(i + 1) == change.networks.deep_view().take(
                i as int,
            ).push(network@));
            assert(networks@.map_values(|p: (CommandLine, CommandLine)| (p.0@, p.1@)) == before.map_values(
                |p: (CommandLine, CommandLine)| (p.0@, p.1@),
            ).push((network_exists_command(network@), network_create_command(network@))));
        }
        i = i + 1;
    }
    assert(change.networks.deep_view().take(change.networks.len() as int)
        == change.networks.deep_view());

    let mut create = strings(&["create"]);
    let mut health_check: Vec<String> = Vec::new();
    if let Some(h) = &change.health_check {
        health_check.push(h.clone());
    }
    assert(health_check.deep_view() == match change@.health_check {
        Some(h) => seq![h],
        None => Seq::<Seq<char>>::empty(),
    });
    push_flagged(&mut create, "--health-cmd", &health_check);
    let ghost a = create.deep_view();
    create.push("--name".to_owned());
    create.push(change.container_name.clone());
    assert(create.deep_view() == a + seq!["--name"@, change.container_name@]);
    push_flagged(&mut create, "--network", &change.networks);
    push_flagged(&mut create, "--publish", &change.port_mappings);
    push_flagged(&mut create, "--volume", &change.volume_mounts);
    let ghost b = create.deep_view();
    create.push("--".to_owned());
    create.push(change.image_id.clone());
    assert(create.deep_view() == b + seq!["--"@, change.image_id@]);
    assert(create.deep_view() == create_arguments(change@));

    let mut generate = strings(
        &["generate", "systemd", "--files", "--name", "--restart-policy", "always", "--"],
    );
    let ghost g = generate.deep_view();
    generate.push(change.container_name.clone());
    assert(generate.deep_view() == g.push(change.container_name@));
    let mut enable = strings(&["--now", "--user", "enable"]);
    let ghost n = enable.deep_view();
    enable.push(change.systemd_unit.clone());
    assert(enable.deep_view() == n.push(change.systemd_unit@));

    let health_check = match &change.health_check {
        None => None,
        Some(_) => {
            let mut run = strings(&["healthcheck", "run"]);
            let ghost r = run.deep_view();
            run.push(change.container_name.clone());
            assert(run.deep_view() == r.push(change.container_name@));
            assert(run.deep_view() == seq!["healthcheck"@, "run"@, change.container_name@]);
            Some(CommandLine::new("podman", run))
        },
    };
    let plan = AddContainer {
        networks,
        create: CommandLine::new("podman", create),
        generate_unit: CommandLine {
            program: "podman".to_owned(),
            arguments: generate,
            current_folder: Some(USER_SYSTEMD_FOLDER.to_owned()),
        },
        enable_unit: CommandLine::new("systemctl", enable),
        health_check,
    };
    assert(plan.networks@.map_values(|p: (CommandLine, CommandLine)| (p.0@, p.1@)) == network_commands(change@.networks));
    assert(plan.create@.arguments == create_arguments(change@));
    assert(plan.generate_unit@.current_folder == Some(USER_SYSTEMD_FOLDER@));
    assert(plan.generate_unit@.arguments == seq![
            "generate"@,
            "systemd"@,
            "--files"@,
            "--name"@,
            "--restart-policy"@,
            "always"@,
            "--"@,
            change@.container_name,
        ]);
    assert(plan.enable_unit@.arguments == seq!["--now"@, "--user"@, "enable"@, change@.systemd_unit]);
    assert(plan.create@ == CommandView {
        program: "podman"@,
        arguments: create_arguments(change@),
        current_folder: None,
    });
    assert(match change@.health_check {
        None => plan.health_check is None,
        Some(_) => plan.health_check matches Some(c) && c@ == CommandView {
            program: "podman"@,
            arguments: seq!["healthcheck"@, "run"@, change@.container_name],
            current_folder: None,
        },
    });
    plan
}


/// The commands that remove the container of `change`.
pub open spec fn remove_container_spec(change: ChangeView, plan: RemoveContainer) -> bool {
    &&& plan.disable_unit@ == CommandView {
        program: "systemctl"@,
        arguments: seq!["--now"@, "--user"@, "disable"@, change.systemd_unit],
        current_folder: None,
    }
    &&& plan.unit_file@ == joined(USER_SYSTEMD_FOLDER@, change.systemd_unit)
    &&& plan.remove@ == CommandView {
        program: "podman"@,
        arguments: seq!["rm"@, "--"@, change.container_name],
        current_folder: None,
    }
}

/// The commands that remove the container of `change`.
pub fn remove_container(change: &ContainerChange) -> (plan: RemoveContainer)
    ensures
        remove_container_spec(change@, plan),
{
    let mut disable = strings(&["--now", "--user", "disable"]);
    let ghost d = disable.deep_view();
    disable.push(change.systemd_unit.clone());
    assert(disable.deep_view() == d.push(change.systemd_unit@));
    let mut remove = strings(&["rm", "--"]);
    let ghost r = remove.deep_view();
    remove.push(change.container_name.clone());
    assert(remove.deep_view() == r.push(change.container_name@));
    let plan = RemoveContainer {
        disable_unit: CommandLine::new("systemctl", disable),
        unit_file: join(USER_SYSTEMD_FOLDER, change.systemd_unit.as_str()),
        remove: CommandLine::new("podman", remove),
    };
    assert(plan.disable_unit@.arguments == seq!["--now"@, "--user"@, "disable"@, change@.systemd_unit]);
    assert(plan.remove@.arguments == seq!["rm"@, "--"@, change@.container_name]);
    plan
}

/// What applying a change takes.
pub enum ChangeStep {
    Add(AddContainer),
    Keep,
    Remove(RemoveContainer),
}

/// What applying `change` takes: adding, keeping or removing its container.
pub fn apply_change(change: &ContainerChange) -> (step: ChangeStep)
    ensures
        match change.operator {
            Operator::Add => step matches ChangeStep::Add(plan) && add_container_spec(change@, plan),
            Operator::Keep => step is Keep,
            Operator::Remove => step matches ChangeStep::Remove(plan) && remove_container_spec(
                change@,
                plan,
            ),
        },
{
    match change.operator {
        Operator::Add => ChangeStep::Add(add_container(change)),
        Operator::Keep => ChangeStep::Keep,
        Operator::Remove => ChangeStep::Remove(remove_container(change)),
    }
}

/// Seconds that the first health check of a new container may take.
pub const INITIAL_HEALTH_CHECK_SECONDS: u64 = 5;

/// What follows a health check that was given `timeout_seconds` and ended with `status`:
/// `None` once it has passed; otherwise the seconds to wait, which are also the time limit
/// of the next check. The time limit doubles after a check that ran out of time.
pub fn health_check_step(timeout_seconds: u64, status: StatusWithinTime) -> (next: Option<u64>)
    requires
        status == StatusWithinTime::Timeout ==> timeout_seconds * 2 <= u64::MAX,
    ensures
        next == match status {
            StatusWithinTime::Success => None::<u64>,
            StatusWithinTime::Failure => Some(timeout_seconds),
            StatusWithinTime::Timeout => Some((timeout_seconds * 2) as u64),
        },
{
    match status {
        StatusWithinTime::Failure => Some(timeout_seconds),
        StatusWithinTime::Success => None,
        StatusWithinTime::Timeout => Some(timeout_seconds * 2),
    }
}

/// The command that lists the images of the container engine as JSON.
pub fn list_images_command() -> (command: CommandLine)
    ensures
        command@ == (CommandView {
            program: "podman"@,
            arguments: seq!["images"@, "--format"@, "json"@],
            current_folder: None,
        }),
{
    let arguments = strings(&["images", "--format", "json"]);
    assert(arguments.deep_view() == seq!["images"@, "--format"@, "json"@]);
    CommandLine::new("podman", arguments)
}

/// The command that removes what no container uses.
pub fn collect_garbage_command() -> (command: CommandLine)
    ensures
        command@ == (CommandView {
            program: "podman"@,
            arguments: seq!["system"@, "prune"@, "--all"@, "--force"@, "--volumes"@],
            current_folder: None,
        }),
{
    let arguments = strings(&["system", "prune", "--all", "--force", "--volumes"]);
    assert(arguments.deep_view() == seq!["system"@, "prune"@, "--all"@, "--force"@, "--volumes"@]);
    CommandLine::new("podman", arguments)
}

/// `sorted` with `name` put in its place, unless it is there already.
pub open spec fn insert_name(sorted: Seq<Seq<char>>, name: Seq<char>) -> Seq<Seq<char>>
    decreases sorted.len(),
{
    if sorted.len() == 0 {
        seq![name]
    } else if sorted.last() == name {
        sorted
    } else if lex_le(sorted.last(), name) {
        sorted.push(name)
    } else {
        insert_name(sorted.drop_last(), name).push(sorted.last())
    }
}

/// The image files among the file names of a folder: those with extension `tar`, sorted,
/// each once.
pub open spec fn image_file_names(names: Seq<Seq<char>>) -> Seq<Seq<char>>
    decreases names.len(),
{
    if names.len() == 0 {
        Seq::empty()
    } else if extension(names.last()) == Some("tar"@) {
        insert_name(image_file_names(names.drop_last()), names.last())
    } else {
        image_file_names(names.drop_last())
    }
}

/// Where `insert_name` puts `name`.
proof fn lemma_insert_name_at(sorted: Seq<Seq<char>>, name: Seq<char>, position: int)
    requires
        0 <= position <= sorted.len(),
        forall|k: int| position <= k < sorted.len() ==> !lex_le(#[trigger] sorted[k], name),
        position == 0 || lex_le(sorted[position - 1], name),
    ensures
        position > 0 && sorted[position - 1] == name ==> insert_name(sorted, name) == sorted,
        !(position > 0 && sorted[position - 1] == name) ==> insert_name(sorted, name)
            == sorted.take(position).push(name) + sorted.skip(position),
    decreases sorted.len(),
{
    if sorted.len() == 0 {
        assert(sorted.take(position).push(name) + sorted.skip(position) == seq![name]);
    } else if position == sorted.len() {
        assert(sorted.take(position) == sorted);
        assert(sorted.skip(position) == Seq::<Seq<char>>::empty());
    } else {
        let rest = sorted.drop_last();
        assert forall|k: int| position <= k < rest.len() implies !lex_le(#[trigger] rest[k], name) by {
            assert(rest[k] == sorted[k]);
        }
        assert(!lex_le(sorted[sorted.len() - 1], name));
        if sorted.last() == name {
            crate::text::lemma_lex_total(name, name);
        }
        lemma_insert_name_at(rest, name, position);
        if position > 0 && sorted[position - 1] == name {
            assert(rest.push(sorted.last()) == sorted);
        } else {
            assert(rest.take(position) == sorted.take(position));
            assert(rest.skip(position).push(sorted.last()) == sorted.skip(position));
            assert((rest.take(position).push(name) + rest.skip(position)).push(sorted.last())
                == sorted.take(position).push(name) + sorted.skip(position));
        }
    }
}

/// The image files among `names`.
#[verifier::rlimit(30)]
fn select_image_files(names: &Vec<String>) -> (files: Vec<String>)
    ensures
        files.deep_view() == image_file_names(names.deep_view()),
{
    let mut files: Vec<String> = Vec::new();
    let mut i: usize = 0;
    assert(names.deep_view().take(0) == Seq::<Seq<char>>::empty());
    while i < names.len()
        invariant
            i <= names.len(),
            files.deep_view() == image_file_names(names.deep_view().take(i as int)),
        decreases names.len() - i,
    {
        let name = &names[i];
        proof {
            let taken = names.deep_view().take(i + 1);
            assert(taken.drop_last() == names.deep_view().take(i as int));
            assert(taken.last() == name@);
        }
        let is_tar = match extension_of(name.as_str()) {
            Some(e) => {
                proof {
                    reveal_strlit("tar");
                }
                e == "tar".to_owned()
            },
            None => false,
        };
        if is_tar {
            let mut position = files.len();
            while position > 0 && !lex_le_exec(&files[position - 1], name)
                invariant
                    position <= files.len(),
                    forall|k: int|
                        position <= k < files.len() ==> !lex_le(
                            #[trigger] files.deep_view()[k],
                            name@,
                        ),
                decreases position,
            {
                position = position - 1;
            }
            let ghost before = files.deep_view();
            proof {
                lemma_insert_name_at(before, name@, position as int);
            }
            if !(position > 0 && files[position - 1] == *name) {
                files.insert(position, name.clone());
                assert(files.deep_view() == before.take(position as int).push(name@) + before.skip(
                    position as int,
                ));
            }
        }
        i = i + 1;
    }
    assert(names.deep_view().take(names.len() as int) == names.deep_view());
    files
}

/// The image files to load and the IDs of the images that they hold.
pub struct TargetImages {
    pub files: Vec<String>,
    pub image_ids: Vec<String>,
}

/// The image files in the folder `remote_workbench`, given the names of its entries, and
/// the IDs of their images: each file named `<id>.tar` holds the image `<id>`. Files are
/// taken in the order of their names.
pub fn load_target_images(remote_workbench: &str, names: &Vec<String>) -> (target: TargetImages)
    ensures
        target.files.deep_view() == image_file_names(names.deep_view()).map_values(
            |n: Seq<char>| joined(remote_workbench@, n),
        ),
        target.image_ids.deep_view() == image_file_names(names.deep_view()).map_values(
            |n: Seq<char>| stem(n),
        ),
{
    let selected = select_image_files(names);
    let mut files: Vec<String> = Vec::new();
    let mut image_ids: Vec<String> = Vec::new();
    let mut i: usize = 0;
    while i < selected.len()
        invariant
            i <= selected.len(),
            files.deep_view() == selected.deep_view().take(i as int).map_values(
                |n: Seq<char>| joined(remote_workbench@, n),
            ),
            image_ids.deep_view() == selected.deep_view().take(i as int).map_values(
                |n: Seq<char>| stem(n),
            ),
        decreases selected.len() - i,
    {
        let ghost (f, d) = (files.deep_view(), image_ids.deep_view());
        files.push(join(remote_workbench, selected[i].as_str()));
        image_ids.push(stem_of(selected[i].as_str()));
        proof {
            let taken = selected.deep_view().take(i + 1);
            assert(taken == selected.deep_view().take(i as int).push(selected[i as int]@));
            assert(files.deep_view() == f.push(joined(remote_workbench@, selected[i as int]@)));
            assert(image_ids.deep_view() == d.push(stem(selected[i as int]@)));
            assert(taken.map_values(|n: Seq<char>| joined(remote_workbench@, n)) == f.push(
                joined(remote_workbench@, selected[i as int]@),
            ));
            assert(taken.map_values(|n: Seq<char>| stem(n)) == d.push(stem(selected[i as int]@)));
        }
        i = i + 1;
    }
    assert(selected.deep_view().take(selected.len() as int) == selected.deep_view());
    TargetImages { files, image_ids }
}

/// The command that loads the image file `file`.
pub fn load_image_command(file: &String) -> (command: CommandLine)
    ensures
        command@ == (CommandView {
            program: "podman"@,
            arguments: seq!["load"@, "--input"@, file@],
            current_folder: None,
        }),
{
    let mut arguments = strings(&["load", "--input"]);
    let ghost a = arguments.deep_view();
    arguments.push(file.clone());
    assert(arguments.deep_view() == a.push(file@));
    assert(arguments.deep_view() == seq!["load"@, "--input"@, file@]);
    CommandLine::new("podman", arguments)
}


/// The images among `images` that have containers.
pub open spec fn images_in_use(images: Seq<ImageView>) -> Seq<ImageView>
    decreases images.len(),
{
    if images.len() == 0 {
        Seq::empty()
    } else if images.last().container_count != 0 {
        images_in_use(images.drop_last()).push(images.last())
    } else {
        images_in_use(images.drop_last())
    }
}

/// The images among `images` whose ID is one of `ids`.
pub open spec fn images_with_ids(images: Seq<ImageView>, ids: Seq<Seq<char>>) -> Seq<ImageView>
    decreases images.len(),
{
    if images.len() == 0 {
        Seq::empty()
    } else if ids.contains(images.last().image_id) {
        images_with_ids(images.drop_last(), ids).push(images.last())
    } else {
        images_with_ids(images.drop_last(), ids)
    }
}

/// An element is in a sequence with `image` appended exactly when it is `image` or was in
/// the sequence before.
proof fn lemma_push_contains(images: Seq<ImageView>, image: ImageView, x: ImageView)
    ensures
        images.push(image).contains(x) <==> (images.contains(x) || x == image),
{
    let pushed = images.push(image);
    if pushed.contains(x) {
        let k = choose|k: int| 0 <= k < pushed.len() && pushed[k] == x;
        if k < images.len() {
            assert(images[k] == x);
        }
    }
    if images.contains(x) {
        let k = choose|k: int| 0 <= k < images.len() && images[k] == x;
        assert(pushed[k] == x);
    }
    if x == image {
        assert(pushed[images.len() as int] == x);
    }
}

/// The target images are exactly the listed images whose ID is among `ids`, whatever
/// their container count, and the images in use exactly those with containers: an image
/// can be both, so that deploying the running images again keeps their containers.
pub proof fn lemma_selected_images(images: Seq<ImageView>, ids: Seq<Seq<char>>)
    ensures
        forall|x: ImageView|
            #[trigger] images_with_ids(images, ids).contains(x) <==> (images.contains(x)
                && ids.contains(x.image_id)),
        forall|x: ImageView|
            #[trigger] images_in_use(images).contains(x) <==> (images.contains(x) && x.container_count
                != 0),
    decreases images.len(),
{
    if images.len() > 0 {
        let rest = images.drop_last();
        let last = images.last();
        lemma_selected_images(rest, ids);
        assert(rest.push(last) == images);
        let targets = images_with_ids(rest, ids);
        let used = images_in_use(rest);
        assert forall|x: ImageView|
            #[trigger] images_with_ids(images, ids).contains(x) <==> (images.contains(x)
                && ids.contains(x.image_id)) by {
            lemma_push_contains(rest, last, x);
            lemma_push_contains(targets, last, x);
            assert(targets.contains(x) <==> (rest.contains(x) && ids.contains(x.image_id)));
            if ids.contains(last.image_id) {
                assert(images_with_ids(images, ids) == targets.push(last));
            } else {
                assert(images_with_ids(images, ids) == targets);
            }
        }
        assert forall|x: ImageView|
            #[trigger] images_in_use(images).contains(x) <==> (images.contains(x) && x.container_count
                != 0) by {
            lemma_push_contains(rest, last, x);
            lemma_push_contains(used, last, x);
            assert(used.contains(x) <==> (rest.contains(x) && x.container_count != 0));
            if last.container_count != 0 {
                assert(images_in_use(images) == used.push(last));
            } else {
                assert(images_in_use(images) == used);
            }
        }
    }
}

/// A copy of `image`.
fn copy_image(image: &Image) -> (copy: Image)
    ensures
        copy@ == image@,
{
    Image {
        container_count: image.container_count,
        container_names: copy_strings(&image.container_names),
        digest: image.digest.clone(),
        health_check: copy_optional(&image.health_check),
        image_id: image.image_id.clone(),
        networks: copy_strings(&image.networks),
        port_mappings: copy_strings(&image.port_mappings),
        volume_mounts: copy_strings(&image.volume_mounts),
    }
}

/// Whether `ids` holds `id`.
pub fn contains_string(ids: &Vec<String>, id: &String) -> (found: bool)
    ensures
        found == ids.deep_view().contains(id@),
{
    let mut i: usize = 0;
    while i < ids.len()
        invariant
            i <= ids.len(),
            forall|k: int| 0 <= k < i ==> ids.deep_view()[k] != id@,
        decreases ids.len() - i,
    {
        if ids[i] == *id {
            assert(ids.deep_view()[i as int] == id@);
            return true;
        }
        i = i + 1;
    }
    false
}

/// `images` with each image kept once, where it first occurs.
pub open spec fn distinct_images(images: Seq<ImageView>) -> Seq<ImageView>
    decreases images.len(),
{
    if images.len() == 0 {
        Seq::empty()
    } else {
        let prefix = distinct_images(images.drop_last());
        if prefix.contains(images.last()) {
            prefix
        } else {
            prefix.push(images.last())
        }
    }
}

/// A sequence without duplicates stays so when an element that it lacks is appended.
proof fn lemma_push_distinct(images: Seq<ImageView>, image: ImageView)
    requires
        images.no_duplicates(),
        !images.contains(image),
    ensures
        images.push(image).no_duplicates(),
{
    let pushed = images.push(image);
    assert forall|i: int, j: int| 0 <= i < pushed.len() && 0 <= j < pushed.len() && i != j implies pushed[i]
        != pushed[j] by {
        if i < images.len() && j < images.len() {
            assert(pushed[i] == images[i] && pushed[j] == images[j]);
        } else if i < images.len() {
            assert(pushed[i] == images[i]);
        } else {
            assert(pushed[j] == images[j]);
        }
    }
}

/// No image occurs twice in `distinct_images(images)`, and each of `images` occurs there.
pub proof fn lemma_distinct_images(images: Seq<ImageView>)
    ensures
        distinct_images(images).no_duplicates(),
        forall|x: ImageView| images.contains(x) <==> #[trigger] distinct_images(images).contains(x),
    decreases images.len(),
{
    if images.len() > 0 {
        let rest = images.drop_last();
        let last = images.last();
        let prefix = distinct_images(rest);
        lemma_distinct_images(rest);
        if !prefix.contains(last) {
            lemma_push_distinct(prefix, last);
        }
        assert forall|x: ImageView| images.contains(x) implies #[trigger] distinct_images(images).contains(x) by {
            let k = choose|k: int| 0 <= k < images.len() && images[k] == x;
            if k < images.len() - 1 {
                assert(rest[k] == x);
                assert(rest.contains(x));
                assert(prefix.contains(x));
                if !prefix.contains(last) {
                    let m = choose|m: int| 0 <= m < prefix.len() && prefix[m] == x;
                    assert(prefix.push(last)[m] == x);
                }
            } else {
                assert(x == last);
                if !prefix.contains(last) {
                    assert(prefix.push(last)[prefix.len() as int] == x);
                }
            }
        }
        assert forall|x: ImageView| #[trigger] distinct_images(images).contains(x) implies images.contains(x) by {
            if x == last {
                assert(images[images.len() - 1] == x);
            } else {
                let d = distinct_images(images);
                let m = choose|m: int| 0 <= m < d.len() && d[m] == x;
                if prefix.contains(last) {
                    assert(prefix.contains(x));
                } else {
                    assert(m < prefix.len());
                    assert(prefix[m] == x);
                    assert(prefix.contains(x));
                }
                assert(rest.contains(x));
                let k = choose|k: int| 0 <= k < rest.len() && rest[k] == x;
                assert(images[k] == x);
            }
        }
    }
}

/// The images in use among images that are distinct are distinct.
proof fn lemma_in_use_distinct(images: Seq<ImageView>)
    requires
        images.no_duplicates(),
    ensures
        images_in_use(images).no_duplicates(),
        forall|x: ImageView| #[trigger] images_in_use(images).contains(x) ==> images.contains(x),
    decreases images.len(),
{
    if images.len() > 0 {
        let rest = images.drop_last();
        let last = images.last();
        let prefix = images_in_use(rest);
        assert forall|i: int, j: int| 0 <= i < rest.len() && 0 <= j < rest.len() && i != j implies rest[i]
            != rest[j] by {
            assert(rest[i] == images[i] && rest[j] == images[j]);
        }
        lemma_in_use_distinct(rest);
        assert(!rest.contains(last)) by {
            if rest.contains(last) {
                let k = choose|k: int| 0 <= k < rest.len() && rest[k] == last;
                assert(images[k] == images[images.len() - 1]);
            }
        }
        if last.container_count != 0 {
            lemma_push_distinct(prefix, last);
        }
        assert forall|x: ImageView| #[trigger] images_in_use(images).contains(x) implies images.contains(x) by {
            if x == last {
                assert(images[images.len() - 1] == x);
            } else {
                let d = images_in_use(images);
                let m = choose|m: int| 0 <= m < d.len() && d[m] == x;
                if last.container_count != 0 {
                    assert(m < prefix.len());
                    assert(prefix[m] == x);
                }
                assert(prefix.contains(x));
                let k = choose|k: int| 0 <= k < rest.len() && rest[k] == x;
                assert(images[k] == x);
            }
        }
    }
}

/// The images with given IDs among images that are distinct are distinct.
proof fn lemma_with_ids_distinct(images: Seq<ImageView>, ids: Seq<Seq<char>>)
    requires
        images.no_duplicates(),
    ensures
        images_with_ids(images, ids).no_duplicates(),
        forall|x: ImageView| #[trigger] images_with_ids(images, ids).contains(x) ==> images.contains(x),
    decreases images.len(),
{
    if images.len() > 0 {
        let rest = images.drop_last();
        let last = images.last();
        let prefix = images_with_ids(rest, ids);
        assert forall|i: int, j: int| 0 <= i < rest.len() && 0 <= j < rest.len() && i != j implies rest[i]
            != rest[j] by {
            assert(rest[i] == images[i] && rest[j] == images[j]);
        }
        lemma_with_ids_distinct(rest, ids);
        assert(!rest.contains(last)) by {
            if rest.contains(last) {
                let k = choose|k: int| 0 <= k < rest.len() && rest[k] == last;
                assert(images[k] == images[images.len() - 1]);
            }
        }
        if ids.contains(last.image_id) {
            lemma_push_distinct(prefix, last);
        }
        assert forall|x: ImageView| #[trigger] images_with_ids(images, ids).contains(x) implies images.contains(x) by {
            if x == last {
                assert(images[images.len() - 1] == x);
            } else {
                let d = images_with_ids(images, ids);
                let m = choose|m: int| 0 <= m < d.len() && d[m] == x;
                if ids.contains(last.image_id) {
                    assert(m < prefix.len());
                    assert(prefix[m] == x);
                }
                assert(prefix.contains(x));
                let k = choose|k: int| 0 <= k < rest.len() && rest[k] == x;
                assert(images[k] == x);
            }
        }
    }
}

/// Whether `a` and `b` hold the same text or both none.
fn same_optional(a: &Option<String>, b: &Option<String>) -> (r: bool)
    ensures
        r == (optional_view(*a) == optional_view(*b)),
{
    match (a, b) {
        (None, None) => true,
        (Some(x), Some(y)) => {
            let r = *x == *y;
            assert(r == (x@ == y@));
            r
        },
        _ => false,
    }
}

/// Whether `a` and `b` describe the same image.
fn same_image(a: &Image, b: &Image) -> (r: bool)
    ensures
        r == (a@ == b@),
{
    let r = a.container_count == b.container_count && same_strings(
        &a.container_names,
        &b.container_names,
    ) && a.digest == b.digest && same_optional(&a.health_check, &b.health_check) && a.image_id
        == b.image_id && same_strings(&a.networks, &b.networks) && same_strings(
        &a.port_mappings,
        &b.port_mappings,
    ) && same_strings(&a.volume_mounts, &b.volume_mounts);
    if r {
        assert(a@ == b@);
    }
    r
}

/// Whether `images` holds an image that `image` describes too.
fn contains_image(images: &Vec<Image>, image: &Image) -> (found: bool)
    ensures
        found == image_views(images@).contains(image@),
{
    let mut i: usize = 0;
    while i < images.len()
        invariant
            i <= images.len(),
            forall|k: int| 0 <= k < i ==> image_views(images@)[k] != image@,
        decreases images.len() - i,
    {
        if same_image(&images[i], image) {
            assert(image_views(images@)[i as int] == image@);
            return true;
        }
        i = i + 1;
    }
    false
}

/// The changes that deploying the images loaded from `target_image_ids` takes, given the
/// images that the container engine lists: the containers of images in use are replaced
/// by those of the target images, each image counted once however often it is listed.
#[verifier::rlimit(30)]
pub fn go(target_image_ids: &Vec<String>, images: Vec<RawImage>) -> (changes: Vec<ContainerChange>)
    ensures
        change_views(changes@) == planned_changes(
            images_in_use(distinct_images(images@.map_values(|r: RawImage| image_of(r)))),
            images_with_ids(
                distinct_images(images@.map_values(|r: RawImage| image_of(r))),
                target_image_ids.deep_view(),
            ),
        ),
{
    let ghost all = images@.map_values(|r: RawImage| image_of(r));
    let mut seen: Vec<Image> = Vec::new();
    let mut actual: Vec<Image> = Vec::new();
    let mut target: Vec<Image> = Vec::new();
    let mut rest = images;
    let total = rest.len();
    let mut i: usize = 0;
    assert(all.take(0) == Seq::<ImageView>::empty());
    assert(rest@ == images@.skip(0));
    while rest.len() > 0
        invariant
            all.len() == total,
            i + rest.len() == total,
            rest@ == images@.skip(i as int),
            all == images@.map_values(|r: RawImage| image_of(r)),
            image_views(seen@) == distinct_images(all.take(i as int)),
            image_views(actual@) == images_in_use(distinct_images(all.take(i as int))),
            image_views(target@) == images_with_ids(
                distinct_images(all.take(i as int)),
                target_image_ids.deep_view(),
            ),
        decreases rest.len(),
    {
        let ghost old_rest = rest@;
        let ghost before = distinct_images(all.take(i as int));
        let raw = rest.remove(0);
        proof {
            assert(raw == images@[i as int]);
            assert(rest@ == images@.skip(i + 1));
            assert(all.take(i + 1).drop_last() == all.take(i as int));
            assert(all.take(i + 1).last() == image_of(raw));
        }
        let image = parse_image_metadata(raw);
        if !contains_image(&seen, &image) {
            let ghost s = seen@;
            seen.push(copy_image(&image));
            assert(image_views(seen@) == image_views(s).push(image@));
            assert(before.push(image@).drop_last() == before);
            let in_use = image.container_count != 0;
            let is_target = contains_string(target_image_ids, &image.image_id);
            if in_use {
                let ghost a = actual@;
                actual.push(copy_image(&image));
                assert(image_views(actual@) == image_views(a).push(image@));
            }
            if is_target {
                let ghost t = target@;
                target.push(image);
                assert(image_views(target@) == image_views(t).push(image_of(raw)));
            }
        }
        i = i + 1;
    }
    assert(all.take(total as int) == all);
    proof {
        lemma_distinct_images(all);
        lemma_in_use_distinct(distinct_images(all));
        lemma_with_ids_distinct(distinct_images(all), target_image_ids.deep_view());
    }
    plan_changes(&actual, &target)
}

} // verus!
