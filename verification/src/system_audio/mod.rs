//! Recording what other programs play.

use std::sync::atomic::AtomicBool;
use std::sync::Arc;

use vstd::prelude::*;
use vstd::string::*;

pub mod status;
pub mod tap;
pub mod watchdog;

verus! {

/// A device that plays sound.
#[derive(Debug)]
pub struct OutputDevice {
    pub id: u32,
    pub name: String,
    /// What it is found by from one run to the next.
    pub uid: String,
}

/// A device that plays sound, its texts taken as sequences.
#[verifier::ext_equal]
pub struct DeviceView {
    pub id: u32,
    pub name: Seq<char>,
    pub uid: Seq<char>,
}

impl View for OutputDevice {
    type V = DeviceView;

    open spec fn view(&self) -> DeviceView {
        DeviceView { id: self.id, name: self.name@, uid: self.uid@ }
    }
}

/// The devices of a list.
pub open spec fn device_views(list: Seq<OutputDevice>) -> Seq<DeviceView> {
    list.map_values(|d: OutputDevice| d@)
}

/// What the audio system tells of a device; what it does not tell is absent.
pub struct DeviceProbe {
    pub id: u32,
    /// Buffers in the direction of output.
    pub output_buffers: Option<u32>,
    pub uid: Option<String>,
    pub name: Option<String>,
}

/// The device that a probe found: one with an output, a name and a UID.
pub open spec fn probed(p: DeviceProbe) -> Option<DeviceView> {
    match (p.output_buffers, p.uid, p.name) {
        (Some(buffers), Some(uid), Some(name)) => if buffers > 0 {
            Some(DeviceView { id: p.id, name: name@, uid: uid@ })
        } else {
            None
        },
        _ => None,
    }
}

/// The devices that probes found, in their order.
pub open spec fn all_probed(probes: Seq<DeviceProbe>) -> Seq<DeviceView>
    decreases probes.len(),
{
    if probes.len() == 0 {
        Seq::empty()
    } else {
        let before = all_probed(probes.drop_last());
        match probed(probes.last()) {
            Some(d) => before.push(d),
            None => before,
        }
    }
}

/// The devices that play sound: microphones, and the recording halves of
/// devices that do both, are left out.
pub fn enumerate_output_devices(probes: Vec<DeviceProbe>) -> (r: Vec<OutputDevice>)
    ensures
        device_views(r@) == all_probed(probes@),
{
    let ghost all = probes@;
    let mut out: Vec<OutputDevice> = Vec::new();
    proof {
        assert(all.take(0) =~= Seq::<DeviceProbe>::empty());
        assert(device_views(out@) =~= Seq::<DeviceView>::empty());
    }
    for probe in it: probes.into_iter()
        invariant
            it.seq() == all,
            device_views(out@) == all_probed(all.take(it.index())),
    {
        let ghost before = device_views(out@);
        proof {
            let i = it.index();
            assert(all.take(i + 1).drop_last() =~= all.take(i));
            assert(all.take(i + 1).last() == probe);
        }
        match (probe.output_buffers, probe.uid, probe.name) {
            (Some(buffers), Some(uid), Some(name)) => {
                if buffers > 0 {
                    let device = OutputDevice { id: probe.id, name, uid };
                    out.push(device);
                    proof {
                        assert(device_views(out@) =~= before.push(device@));
                    }
                }
            },
            _ => {},
        }
    }
    proof {
        assert(all.take(all.len() as int) =~= all);
    }
    out
}

/// The devices that play sound. `probes` is what the audio system tells of all
/// devices, or what is said if it cannot tell which there are.
pub fn list_output_devices(probes: Result<Vec<DeviceProbe>, String>) -> (r: Result<
    Vec<OutputDevice>,
    String,
>)
    ensures
        match (probes, r) {
            (Ok(p), Ok(devices)) => device_views(devices@) == all_probed(p@),
            (Err(e), Err(f)) => e == f,
            _ => false,
        },
{
    match probes {
        Ok(p) => Ok(enumerate_output_devices(p)),
        Err(e) => Err(e),
    }
}

/// A recording of the system's sound. `T` is what the audio system handed out
/// for it; it is there until it is taken to be released.
pub struct SystemAudioTap<T> {
    pub inner: Option<T>,
    pub needs_rebuild: Arc<AtomicBool>,
}

impl<T> SystemAudioTap<T> {
    /// A recording that runs.
    pub fn new(objects: T, needs_rebuild: Arc<AtomicBool>) -> (r: SystemAudioTap<T>)
        ensures
            r.inner == Some(objects),
            r.needs_rebuild == needs_rebuild,
    {
        SystemAudioTap { inner: Some(objects), needs_rebuild }
    }

    /// The flag that tells that the recording has to be set up anew.
    pub fn needs_rebuild_flag(&self) -> (r: Arc<AtomicBool>)
        ensures
            r == self.needs_rebuild,
    {
        self.needs_rebuild.clone()
    }

    /// What has to be released, once.
    pub fn take_objects(&mut self) -> (r: Option<T>)
        ensures
            r == old(self).inner,
            final(self).inner is None,
            final(self).needs_rebuild == old(self).needs_rebuild,
    {
        self.inner.take()
    }
}

// ─── Laws ──────────────────────────────────────────────────────────────

/// Every device that is listed was told of, plays sound, and keeps its name and
/// UID; there are no more of them than probes.
pub proof fn law_listed_devices_play_sound(probes: Seq<DeviceProbe>)
    ensures
        all_probed(probes).len() <= probes.len(),
        forall|i: int|
            0 <= i < all_probed(probes).len() ==> exists|j: int|
                0 <= j < probes.len() && probed(#[trigger] probes[j]) == Some(
                    #[trigger] all_probed(probes)[i],
                ),
    decreases probes.len(),
{
    if probes.len() > 0 {
        let front = probes.drop_last();
        law_listed_devices_play_sound(front);
        assert forall|i: int| 0 <= i < all_probed(probes).len() implies exists|j: int|
            0 <= j < probes.len() && probed(#[trigger] probes[j]) == Some(
                #[trigger] all_probed(probes)[i],
            ) by {
            if i < all_probed(front).len() {
                assert(all_probed(probes)[i] == all_probed(front)[i]);
                let j = choose|j: int|
                    0 <= j < front.len() && probed(#[trigger] front[j]) == Some(
                        all_probed(front)[i],
                    );
                assert(front[j] == probes[j]);
            } else {
                assert(probed(probes[probes.len() - 1]) == Some(all_probed(probes)[i]));
            }
        }
    }
}

/// A device is listed exactly if it has an output, a name and a UID, under its own
/// name and UID, and devices keep their order.
pub proof fn law_devices_with_an_output_are_listed(probes: Seq<DeviceProbe>, p: DeviceProbe)
    ensures
        all_probed(Seq::<DeviceProbe>::empty()).len() == 0,
        p.output_buffers is Some && p.output_buffers->0 > 0 && p.uid is Some && p.name is Some
            ==> all_probed(probes.push(p)) == all_probed(probes).push(
            DeviceView { id: p.id, name: p.name->0@, uid: p.uid->0@ },
        ),
        p.output_buffers is None || p.output_buffers->0 == 0 || p.uid is None || p.name is None
            ==> all_probed(probes.push(p)) == all_probed(probes),
{
    assert(probes.push(p).drop_last() =~= probes);
}

} // verus!
