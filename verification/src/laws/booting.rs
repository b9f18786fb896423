//! Laws of booting.
use vstd::prelude::*;

use crate::device_path::node::NodeView;
use crate::error;
use crate::error::EfiError;
use crate::firmware::{Exchange, Handle};
use crate::helpers::{boot, expand};

verus! {

/// A path that starts with a hardware node, an ACPI node or an end is booted from as it is.
pub proof fn full_path_is_booted_as_it_is(
    parent_handle: Handle,
    device_path: Seq<NodeView>,
    exchanges: Seq<Exchange>,
    outcome: Result<(), EfiError>,
)
    requires
        boot::boots(parent_handle, device_path, exchanges, outcome),
        device_path.len() == 0 || device_path[0].node_type == 1 || device_path[0].node_type == 2
            || device_path[0].node_type == 0x7f,
    ensures
        boot::loads_and_starts(parent_handle, device_path, exchanges, outcome),
{
}

/// A path that starts otherwise is expanded first. What is booted from is what that gave, and where
/// that failed, nothing more happens and the failure is the outcome.
pub proof fn short_form_is_expanded_then_booted(
    parent_handle: Handle,
    device_path: Seq<NodeView>,
    exchanges: Seq<Exchange>,
    outcome: Result<(), EfiError>,
)
    requires
        boot::boots(parent_handle, device_path, exchanges, outcome),
        device_path.len() > 0,
        device_path[0].node_type != 1 && device_path[0].node_type != 2 && device_path[0].node_type
            != 0x7f,
    ensures
        (exists|failure: EfiError| #[trigger]
            expand::expands(device_path, exchanges, Err(failure)) && outcome == Err::<
                (),
                EfiError,
            >(failure)) || (exists|full_path: Seq<NodeView>, expansion: int|
            {
                &&& 0 <= expansion < exchanges.len()
                &&& #[trigger] expand::expands(
                    device_path,
                    exchanges.take(expansion),
                    Ok(full_path),
                )
                &&& boot::loads_and_starts(
                    parent_handle,
                    full_path,
                    exchanges.skip(expansion),
                    outcome,
                )
            }),
{
    let (expansion, expanded) = choose|
        expansion: int,
        expanded: Result<Seq<NodeView>, EfiError>,
    |
        boot::expands_then_boots(
            parent_handle,
            device_path,
            exchanges,
            outcome,
            expansion,
            expanded,
        );
    match expanded {
        Err(failure) => {
            assert(exchanges.take(expansion) =~= exchanges);
            assert(expand::expands(device_path, exchanges, Err(failure)));
        },
        Ok(full_path) => {
            assert(expand::expands(device_path, exchanges.take(expansion), Ok(full_path)));
        },
    }
}

/// The image is loaded from the very path, as a boot option, on behalf of the parent; then the
/// watchdog is set to five minutes, the image that was loaded is started, and when it returns the
/// watchdog is switched off. The first of these that fails is the last that happens, but for the
/// watchdog behind the image, and gives the outcome.
pub proof fn image_is_loaded_watched_and_started(
    parent_handle: Handle,
    full_path: Seq<NodeView>,
    exchanges: Seq<Exchange>,
    outcome: Result<(), EfiError>,
)
    requires
        boot::loads_and_starts(parent_handle, full_path, exchanges, outcome),
    ensures
        1 <= exchanges.len() <= 4,
        exchanges[0] matches Exchange::LoadImage { boot_policy, parent, path, .. } && boot_policy
            && parent == parent_handle && path == full_path,
        exchanges[0]->LoadImage_reply matches Err(status) ==> exchanges.len() == 1 && (
        outcome matches Err(failure) && failure == error::error_of(status)),
        exchanges[0]->LoadImage_reply is Ok ==> exchanges.len() > 1 && (exchanges[1] matches
            Exchange::SetWatchdogTimer { seconds, reply } && seconds == 5 * 60 && (reply matches
            Err(status) ==> exchanges.len() == 2 && (outcome matches Err(failure) && failure
            == error::error_of(status)))),
        exchanges[0]->LoadImage_reply matches Ok(loaded) ==> (
        exchanges[1]->SetWatchdogTimer_reply is Ok ==> exchanges.len() == 4 && (exchanges[2] matches
            Exchange::StartImage { image, reply } && image == loaded && (reply is Ok ==> outcome is
            Ok) && (reply matches Err(status) ==> (outcome matches Err(failure) && failure
            == error::error_of(status)))) && (exchanges[3] matches Exchange::SetWatchdogTimer {
            seconds,
            ..
        } && seconds == 0)),
{
}

/// An outcome with which the exchanges boot from the path.
spec fn outcome_of(
    parent_handle: Handle,
    device_path: Seq<NodeView>,
    exchanges: Seq<Exchange>,
) -> Result<(), EfiError> {
    choose|outcome: Result<(), EfiError>|
        boot::boots(parent_handle, device_path, exchanges, outcome)
}

/// Every device is tried, in order, whatever came of those before it: the exchanges fall into one
/// piece for each device, of which the first sequence gives the ends, and each piece boots from that
/// device, with the outcome that the second sequence gives.
pub proof fn every_device_is_tried(
    parent_handle: Handle,
    devices: Seq<Seq<NodeView>>,
    exchanges: Seq<Exchange>,
) -> (split: (Seq<int>, Seq<Result<(), EfiError>>))
    requires
        boot::attempts_each(parent_handle, devices, exchanges),
    ensures
        split.0.len() == devices.len() + 1,
        split.1.len() == devices.len(),
        split.0[0] == 0,
        split.0.last() == exchanges.len(),
        forall|i: int|
            #![trigger devices[i]]
            0 <= i < devices.len() ==> 0 <= split.0[i] <= split.0[i + 1] <= exchanges.len()
                && boot::boots(
                parent_handle,
                devices[i],
                exchanges.subrange(split.0[i], split.0[i + 1]),
                split.1[i],
            ),
{
    let ends = choose|ends: Seq<int>|
        boot::attempts_between(parent_handle, devices, exchanges, ends);
    let outcomes = Seq::new(
        devices.len(),
        |i: int|
            outcome_of(parent_handle, devices[i], exchanges.subrange(ends[i], ends[i + 1])),
    );
    let split = (ends, outcomes);
    assert forall|i: int|
        #![trigger devices[i]]
        #![trigger split.0[i]]
        0 <= i < devices.len() implies 0 <= split.0[i] <= split.0[i + 1] <= exchanges.len()
        && boot::boots(
        parent_handle,
        devices[i],
        exchanges.subrange(split.0[i], split.0[i + 1]),
        split.1[i],
    ) by {
        assert(boot::attempts(parent_handle, devices[i], exchanges, ends[i], ends[i + 1]));
    }
    split
}

/// Loading and starting an image loads one image, at its very beginning.
proof fn lemma_one_load(
    parent_handle: Handle,
    full_path: Seq<NodeView>,
    exchanges: Seq<Exchange>,
    outcome: Result<(), EfiError>,
)
    requires
        boot::loads_and_starts(parent_handle, full_path, exchanges, outcome),
    ensures
        exchanges.filter(|exchange: Exchange| exchange is LoadImage) == seq![exchanges[0]],
{
    let select = |exchange: Exchange| exchange is LoadImage;
    let first = seq![exchanges[0]];
    let rest = exchanges.skip(1);
    assert(exchanges =~= first + rest);
    Seq::filter_distributes_over_add(first, rest, select);
    assert(first.filter(select) =~= first) by {
        reveal(Seq::filter);
        assert(first.drop_last().filter(select) =~= Seq::<Exchange>::empty());
    }
    assert(rest.filter(select) =~= Seq::<Exchange>::empty()) by {
        broadcast use {Seq::lemma_filter_pred, Seq::lemma_filter_contains_rev};

        if rest.filter(select).len() > 0 {
            let exchange = rest.filter(select)[0];
            assert(rest.filter(select).contains(exchange));
            assert(rest.contains(exchange));
        }
    }
    assert(exchanges.filter(select) =~= first);
}

/// The images loaded for the first devices.
proof fn lemma_loads_of_first_devices(
    parent_handle: Handle,
    devices: Seq<Seq<NodeView>>,
    exchanges: Seq<Exchange>,
    ends: Seq<int>,
    count: int,
)
    requires
        boot::attempts_between(parent_handle, devices, exchanges, ends),
        0 <= count <= devices.len(),
        forall|i: int|
            0 <= i < devices.len() ==> (#[trigger] devices[i]).len() == 0 || devices[i][0].node_type
                == 1 || devices[i][0].node_type == 2 || devices[i][0].node_type == 0x7f,
    ensures
        0 <= ends[count] <= exchanges.len(),
        ({
            let loads = exchanges.take(ends[count]).filter(
                |exchange: Exchange| exchange is LoadImage,
            );
            &&& loads.len() == count
            &&& forall|i: int|
                0 <= i < count ==> (#[trigger] loads[i] matches Exchange::LoadImage {
                    boot_policy,
                    parent,
                    path,
                    ..
                } && boot_policy && parent == parent_handle && path == devices[i])
        }),
    decreases count,
{
    let select = |exchange: Exchange| exchange is LoadImage;
    if count == 0 {
        reveal(Seq::filter);
        assert(exchanges.take(0) =~= Seq::<Exchange>::empty());
    } else {
        lemma_loads_of_first_devices(parent_handle, devices, exchanges, ends, count - 1);
        let device = devices[count - 1];
        assert(boot::attempts(parent_handle, device, exchanges, ends[count - 1], ends[count]));
        let before = exchanges.take(ends[count - 1]);
        let part = exchanges.subrange(ends[count - 1], ends[count]);
        let outcome = choose|outcome: Result<(), EfiError>|
            boot::boots(parent_handle, device, part, outcome);
        lemma_one_load(parent_handle, device, part, outcome);
        assert(exchanges.take(ends[count]) =~= before + part);
        Seq::filter_distributes_over_add(before, part, select);
        let loads = exchanges.take(ends[count]).filter(select);
        let earlier = before.filter(select);
        assert(loads =~= earlier + seq![part[0]]);
        assert forall|i: int| 0 <= i < count implies (#[trigger] loads[i] matches
            Exchange::LoadImage { boot_policy, parent, path, .. } && boot_policy && parent
            == parent_handle && path == devices[i]) by {
            if i < count - 1 {
                assert(loads[i] == earlier[i]);
            }
        }
    }
}

/// Of devices with full paths, each has its image loaded exactly once, in order, from its own path
/// and on behalf of the parent, whatever came of the images before; and nothing else is loaded.
pub proof fn every_full_path_is_loaded_once(
    parent_handle: Handle,
    devices: Seq<Seq<NodeView>>,
    exchanges: Seq<Exchange>,
)
    requires
        boot::attempts_each(parent_handle, devices, exchanges),
        forall|i: int|
            0 <= i < devices.len() ==> (#[trigger] devices[i]).len() == 0 || devices[i][0].node_type
                == 1 || devices[i][0].node_type == 2 || devices[i][0].node_type == 0x7f,
    ensures
        ({
            let loads = exchanges.filter(|exchange: Exchange| exchange is LoadImage);
            &&& loads.len() == devices.len()
            &&& forall|i: int|
                0 <= i < devices.len() ==> (#[trigger] loads[i] matches Exchange::LoadImage {
                    boot_policy,
                    parent,
                    path,
                    ..
                } && boot_policy && parent == parent_handle && path == devices[i])
        }),
{
    let ends = choose|ends: Seq<int>|
        boot::attempts_between(parent_handle, devices, exchanges, ends);
    let count = devices.len() as int;
    lemma_loads_of_first_devices(parent_handle, devices, exchanges, ends, count);
    assert(exchanges.take(ends[count]) =~= exchanges);
}

} // verus!
