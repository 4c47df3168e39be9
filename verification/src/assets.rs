//! The helper binaries that ship with the daemon, and where they go.
use crate::bytes::{bytes_eq, append, copy_range, ends_with, has_suffix, rows};
use vstd::prelude::*;
use vstd::string::StringSliceAdditionalSpecFns;

verus! {

pub const BINARY_DIR: &'static str = "/data/adb/ksu/bin/";

pub const RESETPROP_PATH: &'static str = "/data/adb/ksu/bin/resetprop";

pub const BUSYBOX_PATH: &'static str = "/data/adb/ksu/bin/busybox";

/// One binary to unpack.
#[derive(Clone, Debug)]
pub struct Extraction {
    /// The name of the asset.
    pub asset: Vec<u8>,
    /// The path to write it to.
    pub target: Vec<u8>,
    /// Whether a file that is already there is left alone.
    pub ignore_if_exist: bool,
}

pub struct ExtractionModel {
    pub asset: Seq<u8>,
    pub target: Seq<u8>,
    pub ignore_if_exist: bool,
}

impl View for Extraction {
    type V = ExtractionModel;

    open spec fn view(&self) -> ExtractionModel {
        ExtractionModel {
            asset: self.asset@,
            target: self.target@,
            ignore_if_exist: self.ignore_if_exist,
        }
    }
}

/// Every asset is unpacked but the init binary and the kernel modules.
pub open spec fn is_unpacked(asset: Seq<u8>) -> bool {
    asset != "ksuinit".spec_bytes() && !has_suffix(asset, ".ko".spec_bytes())
}

pub open spec fn unpacked() -> spec_fn(Seq<u8>) -> bool {
    |asset: Seq<u8>| is_unpacked(asset)
}

/// Where an asset is unpacked to.
pub open spec fn binary_path(asset: Seq<u8>) -> Seq<u8> {
    BINARY_DIR.spec_bytes() + asset
}

/// What is to be unpacked of the given assets.
pub open spec fn extractions(assets: Seq<Seq<u8>>, ignore_if_exist: bool) -> Seq<ExtractionModel> {
    assets.filter(unpacked()).map_values(
        |asset: Seq<u8>| ExtractionModel { asset, target: binary_path(asset), ignore_if_exist },
    )
}

/// Says which of the embedded assets are to be unpacked, and where to,
/// in the order of the assets.
pub fn ensure_binaries(assets: &Vec<Vec<u8>>, ignore_if_exist: bool) -> (plan: Vec<Extraction>)
    ensures
        plan@.map_values(|e: Extraction| e@) == extractions(rows(assets@), ignore_if_exist),
{
    let ghost all = rows(assets@);
    let mut plan: Vec<Extraction> = Vec::new();
    let mut i: usize = 0;
    proof {
        reveal(Seq::filter);
        assert(plan@.map_values(|e: Extraction| e@) =~= extractions(all.take(0), ignore_if_exist));
    }
    while i < assets.len()
        invariant
            i <= assets@.len(),
            all == rows(assets@),
            plan@.map_values(|e: Extraction| e@) == extractions(all.take(i as int), ignore_if_exist),
        decreases assets.len() - i,
    {
        let name = &assets[i];
        proof {
            assert(all[i as int] == name@);
            assert(all.take(i + 1) =~= all.take(i as int).push(name@));
            all.take(i as int).lemma_filter_push(name@, unpacked());
        }
        if !bytes_eq(name.as_slice(), "ksuinit".as_bytes()) && !ends_with(
            name.as_slice(),
            ".ko".as_bytes(),
        ) {
            let ghost before = plan@.map_values(|e: Extraction| e@);
            let asset = copy_range(name.as_slice(), 0, name.len());
            assert(asset@ =~= name@);
            let target = append(BINARY_DIR.as_bytes(), name.as_slice());
            let extraction = Extraction { asset, target, ignore_if_exist };
            plan.push(extraction);
            proof {
                assert(plan@.map_values(|e: Extraction| e@) =~= before.push(extraction@));
                assert(extractions(all.take(i as int).push(name@), ignore_if_exist) =~= extractions(
                    all.take(i as int),
                    ignore_if_exist,
                ).push(extraction@));
            }
        }
        i += 1;
    }
    assert(all.take(i as int) =~= all);
    plan
}

} // verus!
