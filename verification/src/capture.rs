//! Where the audio comes from.

use vstd::prelude::*;
use vstd::string::*;

use crate::system_audio;
use crate::system_audio::{DeviceView, OutputDevice};
use crate::text;

verus! {

/// The source that was chosen.
#[derive(Debug)]
pub enum DevicePick {
    /// A microphone, by its name.
    Input(String),
    /// What a device plays, by its UID.
    Output(String),
    /// A file, by its path.
    SampleFile(String),
}

/// The source that was chosen, texts taken as sequences.
#[verifier::ext_equal]
pub enum PickView {
    Input(Seq<char>),
    Output(Seq<char>),
    SampleFile(Seq<char>),
}

impl View for DevicePick {
    type V = PickView;

    open spec fn view(&self) -> PickView {
        match self {
            DevicePick::Input(s) => PickView::Input(s@),
            DevicePick::Output(s) => PickView::Output(s@),
            DevicePick::SampleFile(s) => PickView::SampleFile(s@),
        }
    }
}

/// The name of the first device with this UID, from `from` on.
pub open spec fn device_name(outputs: Seq<DeviceView>, uid: Seq<char>, from: int) -> Option<Seq<char>>
    decreases outputs.len() - from,
{
    if from >= outputs.len() {
        None
    } else if outputs[from].uid == uid {
        Some(outputs[from].name)
    } else {
        device_name(outputs, uid, from + 1)
    }
}

/// The last component that names something: empty ones and those that stand for
/// the directory itself are passed over, and one that leads up names nothing.
pub open spec fn last_name(components: Seq<Seq<char>>) -> Option<Seq<char>>
    decreases components.len(),
{
    if components.len() == 0 {
        None
    } else if components.last() == ""@ || components.last() == "."@ {
        last_name(components.drop_last())
    } else if components.last() == ".."@ {
        None
    } else {
        Some(components.last())
    }
}

/// The name of the file or directory that a path leads to, if it has one.
pub open spec fn file_name(path: Seq<char>) -> Option<Seq<char>> {
    last_name(text::pieces(path, '/', '/'))
}

/// What is shown of the path of a file.
pub open spec fn shown_name(path: Seq<char>) -> Seq<char> {
    match file_name(path) {
        Some(name) => name,
        None => "<unknown>"@,
    }
}

/// What a source is called.
pub open spec fn pick_label(pick: PickView, outputs: Seq<DeviceView>) -> Seq<char> {
    match pick {
        PickView::Input(name) => if name == "default"@ {
            "输入端 / 默认麦克风"@
        } else {
            "输入端 / "@ + name
        },
        PickView::Output(uid) => "输出端 / "@ + (match device_name(outputs, uid, 0) {
            Some(name) => name,
            None => uid,
        }),
        PickView::SampleFile(path) => "示例文件 / "@ + shown_name(path),
    }
}

/// What is said while a source is tried out.
pub open spec fn preview_hint(pick: PickView) -> Seq<char> {
    match pick {
        PickView::SampleFile(_) => " 正在把示例 mp3 解码为 16kHz mono PCM，并按实时速度送入 ASR"@,
        _ => " 对着麦克风说话 / 播放声音，观察下方电平是否跳动"@,
    }
}

/// The name of the file or directory that a path leads to, if it has one.
pub fn file_name_of(path: &str) -> (r: Option<String>)
    ensures
        match r {
            Some(name) => file_name(path@) == Some(name@),
            None => file_name(path@) is None,
        },
{
    let mut parts = text::pieces_of(path, '/', '/');
    while parts.len() > 0
        invariant
            last_name(text::texts(parts@)) == file_name(path@),
        decreases parts@.len(),
    {
        let ghost components = text::texts(parts@);
        let name = match parts.pop() {
            Some(name) => name,
            None => return None,
        };
        proof {
            assert(components.last() == name@);
            assert(components.drop_last() =~= text::texts(parts@));
        }
        if text::same_text(name.as_str(), "..") {
            proof {
                reveal_strlit("");
                reveal_strlit(".");
                reveal_strlit("..");
            }
            return None;
        }
        if !text::same_text(name.as_str(), "") && !text::same_text(name.as_str(), ".") {
            return Some(name);
        }
    }
    None
}

/// What is shown of the path of a file.
pub fn shown_name_of(path: &str) -> (r: String)
    ensures
        r@ == shown_name(path@),
{
    match file_name_of(path) {
        Some(name) => name,
        None => "<unknown>".to_owned(),
    }
}

impl DevicePick {
    /// What the source is called; microphones go by their own name.
    pub fn label(&self, _inputs: &[String], outputs: &[OutputDevice]) -> (r: String)
        ensures
            r@ == pick_label(self@, system_audio::device_views(outputs@)),
    {
        match self {
            DevicePick::Input(name) => {
                if text::same_text(name.as_str(), "default") {
                    "输入端 / 默认麦克风".to_owned()
                } else {
                    let mut out = "输入端 / ".to_owned();
                    out.append(name.as_str());
                    out
                }
            },
            DevicePick::Output(uid) => {
                let mut out = "输出端 / ".to_owned();
                let ghost views = system_audio::device_views(outputs@);
                let mut i: usize = 0;
                while i < outputs.len()
                    invariant
                        i <= outputs@.len(),
                        views == system_audio::device_views(outputs@),
                        device_name(views, uid@, 0) == device_name(views, uid@, i as int),
                        out@ == "输出端 / "@,
                        *self == DevicePick::Output(*uid),
                    decreases outputs@.len() - i,
                {
                    proof {
                        assert(views[i as int] == outputs@[i as int]@);
                    }
                    if text::same_text(outputs[i].uid.as_str(), uid.as_str()) {
                        out.append(outputs[i].name.as_str());
                        return out;
                    }
                    i = i + 1;
                }
                out.append(uid.as_str());
                out
            },
            DevicePick::SampleFile(path) => {
                let mut out = "示例文件 / ".to_owned();
                out.append(shown_name_of(path.as_str()).as_str());
                out
            },
        }
    }
}

/// What is said while a source is tried out.
pub fn preview_hint_for_pick(pick: &DevicePick) -> (r: &'static str)
    ensures
        r@ == preview_hint(pick@),
{
    match pick {
        DevicePick::SampleFile(_) => " 正在把示例 mp3 解码为 16kHz mono PCM，并按实时速度送入 ASR",
        DevicePick::Input(_) => " 对着麦克风说话 / 播放声音，观察下方电平是否跳动",
        DevicePick::Output(_) => " 对着麦克风说话 / 播放声音，观察下方电平是否跳动",
    }
}

/// The microphone that is asked for: the default one where none is named.
pub open spec fn input_name(name: Seq<char>) -> Seq<char> {
    if name.len() == 0 {
        "default"@
    } else {
        name
    }
}

/// The microphone to open: the default one if no name is given.
pub fn resolve_input(name: &str) -> (r: String)
    ensures
        r@ == input_name(name@),
{
    if name.is_empty() {
        "default".to_owned()
    } else {
        name.to_owned()
    }
}

/// The names that are not blank.
pub open spec fn named(names: Seq<Seq<char>>) -> Seq<Seq<char>>
    decreases names.len(),
{
    if names.len() == 0 {
        Seq::empty()
    } else {
        let before = named(names.drop_last());
        if text::trim(names.last()).len() == 0 {
            before
        } else {
            before.push(names.last())
        }
    }
}

/// The microphones to choose from: those with a name.
pub fn keep_inputs(names: Vec<String>) -> (r: Vec<String>)
    ensures
        text::texts(r@) == named(text::texts(names@)),
{
    let ghost all = text::texts(names@);
    let mut out: Vec<String> = Vec::new();
    proof {
        assert(all.take(0) =~= Seq::<Seq<char>>::empty());
        assert(text::texts(out@) =~= Seq::<Seq<char>>::empty());
    }
    for name in it: names.into_iter()
        invariant
            it.seq() == names@,
            all == text::texts(names@),
            text::texts(out@) == named(all.take(it.index())),
    {
        let ghost before = text::texts(out@);
        proof {
            let i = it.index();
            assert(all.take(i + 1).drop_last() =~= all.take(i));
            assert(all.take(i + 1).last() == name@);
        }
        if !text::is_blank(name.as_str()) {
            out.push(name);
            proof {
                assert(text::texts(out@) =~= before.push(name@));
            }
        }
    }
    proof {
        assert(all.take(all.len() as int) =~= all);
    }
    out
}

/// Some device of the list has this name.
pub open spec fn has_name(devices: Seq<DeviceView>, name: Seq<char>) -> bool {
    exists|i: int| 0 <= i < devices.len() && (#[trigger] devices[i]).name == name
}

/// The devices that are the first of their name, in order.
pub open spec fn deduped(devices: Seq<DeviceView>) -> Seq<DeviceView>
    decreases devices.len(),
{
    if devices.len() == 0 {
        Seq::empty()
    } else {
        let front = devices.drop_last();
        if has_name(front, devices.last().name) {
            deduped(front)
        } else {
            deduped(front).push(devices.last())
        }
    }
}

/// The names of the devices that stay are the names of all devices.
proof fn lemma_names_stay(devices: Seq<DeviceView>, name: Seq<char>)
    ensures
        has_name(deduped(devices), name) == has_name(devices, name),
    decreases devices.len(),
{
    if devices.len() > 0 {
        let front = devices.drop_last();
        let before = deduped(front);
        let after = deduped(devices);
        let last = devices.last();
        lemma_names_stay(front, name);
        lemma_names_stay(front, last.name);
        if has_name(front, name) {
            let i = choose|i: int| 0 <= i < front.len() && (#[trigger] front[i]).name == name;
            assert(devices[i].name == name);
            let k = choose|k: int| 0 <= k < before.len() && (#[trigger] before[k]).name == name;
            assert(after[k].name == name);
        } else if last.name == name {
            assert(devices[devices.len() - 1].name == name);
            assert(after[after.len() - 1].name == name);
        } else {
            assert forall|i: int| 0 <= i < devices.len() implies (#[trigger] devices[i]).name
                != name by {
                if i < front.len() {
                    assert(front[i].name != name);
                }
            }
            assert forall|k: int| 0 <= k < after.len() implies (#[trigger] after[k]).name
                != name by {
                if k < before.len() {
                    assert(before[k].name != name);
                }
            }
        }
    }
}

fn is_listed(devices: &[OutputDevice], name: &str) -> (r: bool)
    ensures
        r == has_name(system_audio::device_views(devices@), name@),
{
    let ghost views = system_audio::device_views(devices@);
    let mut i: usize = 0;
    while i < devices.len()
        invariant
            i <= devices@.len(),
            views == system_audio::device_views(devices@),
            forall|j: int| 0 <= j < i ==> (#[trigger] views[j]).name != name@,
        decreases devices@.len() - i,
    {
        proof {
            assert(views[i as int] == devices@[i as int]@);
        }
        if text::same_text(devices[i].name.as_str(), name) {
            return true;
        }
        i = i + 1;
    }
    false
}

/// The outputs to choose from: of those with the same name only the first.
pub fn dedup_outputs(devices: Vec<OutputDevice>) -> (r: Vec<OutputDevice>)
    ensures
        system_audio::device_views(r@) == deduped(system_audio::device_views(devices@)),
{
    let ghost all = system_audio::device_views(devices@);
    let mut out: Vec<OutputDevice> = Vec::new();
    proof {
        assert(all.take(0) =~= Seq::<DeviceView>::empty());
        assert(system_audio::device_views(out@) =~= Seq::<DeviceView>::empty());
    }
    for device in it: devices.into_iter()
        invariant
            it.seq() == devices@,
            all == system_audio::device_views(devices@),
            system_audio::device_views(out@) == deduped(all.take(it.index())),
    {
        let ghost before = system_audio::device_views(out@);
        proof {
            let i = it.index();
            assert(all.take(i + 1).drop_last() =~= all.take(i));
            assert(all.take(i + 1).last() == device@);
            lemma_names_stay(all.take(i), device@.name);
        }
        if !is_listed(out.as_slice(), device.name.as_str()) {
            out.push(device);
            proof {
                assert(system_audio::device_views(out@) =~= before.push(device@));
            }
        }
    }
    proof {
        assert(all.take(all.len() as int) =~= all);
    }
    out
}

// ─── Laws ──────────────────────────────────────────────────────────────

/// `some` holds the devices of `all` at `places`, which go up.
pub open spec fn stands_in(some: Seq<DeviceView>, all: Seq<DeviceView>, places: Seq<int>) -> bool {
    &&& places.len() == some.len()
    &&& forall|k: int|
        0 <= k < some.len() ==> 0 <= #[trigger] places[k] < all.len() && some[k] == all[places[k]]
    &&& forall|k: int, l: int| 0 <= k < l < some.len() ==> places[k] < places[l]
}

/// No two outputs have the same name, every name that came in is there, and
/// the outputs are some of those that came in, in the same order.
pub proof fn law_every_name_is_listed_once(devices: Seq<DeviceView>)
    ensures
        forall|i: int, j: int|
            0 <= i < j < deduped(devices).len() ==> deduped(devices)[i].name != deduped(
                devices,
            )[j].name,
        forall|i: int|
            0 <= i < devices.len() ==> has_name(deduped(devices), (#[trigger] devices[i]).name),
        exists|places: Seq<int>| stands_in(deduped(devices), devices, places),
    decreases devices.len(),
{
    let after = deduped(devices);
    assert forall|i: int| 0 <= i < devices.len() implies has_name(
        after,
        (#[trigger] devices[i]).name,
    ) by {
        lemma_names_stay(devices, devices[i].name);
    }
    if devices.len() == 0 {
        assert(stands_in(after, devices, Seq::empty()));
    } else {
        let front = devices.drop_last();
        let before = deduped(front);
        let last = devices.last();
        law_every_name_is_listed_once(front);
        lemma_names_stay(front, last.name);
        let places = choose|places: Seq<int>| stands_in(before, front, places);
        if has_name(front, last.name) {
            assert(stands_in(after, devices, places));
        } else {
            assert forall|i: int, j: int| 0 <= i < j < after.len() implies after[i].name
                != after[j].name by {
                assert(after[i] == before[i]);
                if j < before.len() {
                    assert(after[j] == before[j]);
                }
            }
            assert(stands_in(after, devices, places.push(devices.len() - 1)));
        }
    }
}

/// A path leads to what stands behind its last slash; slashes and dots behind that
/// change nothing, and two dots lead up, to nothing that has a name.
pub proof fn law_path_ends_with_its_name(dir: Seq<char>, name: Seq<char>, path: Seq<char>)
    requires
        forall|i: int| 0 <= i < name.len() ==> #[trigger] name[i] != '/',
        name.len() > 0 && name != seq!['.'] && name != seq!['.', '.'],
    ensures
        file_name(name) == Some(name),
        file_name(dir.push('/') + name) == Some(name),
        file_name(path.push('/')) == file_name(path),
        file_name(path.push('/') + seq!['.']) == file_name(path),
        file_name(path.push('/') + seq!['.', '.']) is None,
        shown_name(dir.push('/') + name) == name,
        file_name(Seq::empty()) is None,
{
    reveal_strlit("");
    reveal_strlit(".");
    reveal_strlit("..");
    let e = Seq::<char>::empty();
    assert("."@ =~= seq!['.'] && ".."@ =~= seq!['.', '.'] && ""@ =~= e);
    text::law_separators_part_pieces(dir, '/', name, '/', '/');
    text::law_separators_part_pieces(path, '/', e, '/', '/');
    text::law_separators_part_pieces(path, '/', seq!['.'], '/', '/');
    text::law_separators_part_pieces(path, '/', seq!['.', '.'], '/', '/');
    assert(path.push('/') + e =~= path.push('/'));
    let parts = text::pieces(path, '/', '/');
    assert(parts.push(e).drop_last() =~= parts);
    assert(parts.push(seq!['.']).drop_last() =~= parts);
    assert(seq![e].drop_last() =~= Seq::<Seq<char>>::empty());
    assert(text::pieces(e, '/', '/') == seq![e]);
    assert(last_name(Seq::<Seq<char>>::empty()) is None);
    assert(last_name(seq![e]) is None);
}

/// A source is called by its kind and its name: a microphone by its own, an output
/// by that of the first device with its UID, or else by the UID, and a file by its
/// own.
pub proof fn law_sources_are_called_by_name(
    name: Seq<char>,
    outputs: Seq<DeviceView>,
    uid: Seq<char>,
    i: int,
    path: Seq<char>,
)
    ensures
        name != "default"@ ==> pick_label(PickView::Input(name), outputs) == "输入端 / "@ + name,
        pick_label(PickView::Input("default"@), outputs) == "输入端 / 默认麦克风"@,
        0 <= i < outputs.len() && outputs[i].uid == uid && (forall|j: int|
            0 <= j < i ==> (#[trigger] outputs[j]).uid != uid) ==> pick_label(
            PickView::Output(uid),
            outputs,
        ) == "输出端 / "@ + outputs[i].name,
        (forall|j: int| 0 <= j < outputs.len() ==> (#[trigger] outputs[j]).uid != uid)
            ==> pick_label(PickView::Output(uid), outputs) == "输出端 / "@ + uid,
        file_name(path) matches Some(n) ==> pick_label(PickView::SampleFile(path), outputs)
            == "示例文件 / "@ + n,
        file_name(path) is None ==> pick_label(PickView::SampleFile(path), outputs)
            == "示例文件 / "@ + "<unknown>"@,
{
    lemma_device_name(outputs, uid, 0, i);
}

proof fn lemma_device_name(outputs: Seq<DeviceView>, uid: Seq<char>, from: int, i: int)
    requires
        0 <= from,
    ensures
        from <= i < outputs.len() && outputs[i].uid == uid && (forall|j: int|
            from <= j < i ==> (#[trigger] outputs[j]).uid != uid) ==> device_name(
            outputs,
            uid,
            from,
        ) == Some(outputs[i].name),
        (forall|j: int| from <= j < outputs.len() ==> (#[trigger] outputs[j]).uid != uid)
            ==> device_name(outputs, uid, from) is None,
    decreases outputs.len() - from,
{
    if from < outputs.len() {
        lemma_device_name(outputs, uid, from + 1, i);
    }
}

/// Microphones without a name are left out, and all others stay in order.
pub proof fn law_microphones_have_names(names: Seq<Seq<char>>, name: Seq<char>)
    ensures
        named(Seq::<Seq<char>>::empty()).len() == 0,
        text::trim(name).len() > 0 ==> named(names.push(name)) == named(names).push(name),
        text::trim(name).len() == 0 ==> named(names.push(name)) == named(names),
{
    assert(names.push(name).drop_last() =~= names);
}

/// Of the outputs with one name the first stays: one more output is listed exactly
/// if none before it has its name.
pub proof fn law_first_output_of_a_name_stays(devices: Seq<DeviceView>, device: DeviceView)
    ensures
        deduped(Seq::<DeviceView>::empty()).len() == 0,
        (exists|i: int| 0 <= i < devices.len() && (#[trigger] devices[i]).name == device.name)
            ==> deduped(devices.push(device)) == deduped(devices),
        (forall|i: int| 0 <= i < devices.len() ==> (#[trigger] devices[i]).name != device.name)
            ==> deduped(devices.push(device)) == deduped(devices).push(device),
{
    assert(devices.push(device).drop_last() =~= devices);
}

/// A microphone that is named is asked for by its name, else the default one is.
pub proof fn law_unnamed_microphone_is_the_default(name: Seq<char>, c: char)
    ensures
        input_name(name.push(c)) == name.push(c),
        input_name(Seq::empty()) == "default"@,
{
}

} // verus!
