//! What this machine can do about its keyboard light and its fans.
//!
//! Providers detect kernel interfaces, never machine models. Each publishes
//! knobs described by a domain -- a percentage, ordered steps, named modes, a
//! switch, a colour -- and the window renders domains.
//!
//! Every filesystem access goes through a `Root`, a value holding the part of
//! `/sys` and `/proc` that discovery reads. Discovery is therefore a function
//! of that value, and is proved against it.

pub mod backlight;
pub mod capture;
pub mod client;
pub mod config;
pub mod curve;
pub mod daemon;
pub mod diagnose;
pub mod fan;
pub mod guard;
pub mod model;
pub mod natural;
pub mod provider;
pub mod probe;
pub mod sysfs;
pub mod text;
pub mod theme;
pub mod window;

use vstd::prelude::*;

use crate::diagnose::{kernel_of, product_of, vendor_of, OSRELEASE};
use crate::sysfs::{Root, RootView};
use crate::text::{cat, cat3};

verus! {

/// The one-line description of a machine: vendor and product where either
/// is known, and the kernel release.
pub open spec fn machine_text(r: RootView) -> Seq<char> {
    let v = vendor_of(r);
    let p = product_of(r);
    if v.len() == 0 && p.len() == 0 {
        "unknown machine, Linux "@ + kernel_of(r)
    } else {
        v + " "@ + p + ", Linux "@ + kernel_of(r)
    }
}

/// A one-line description of the machine, for logs and bug reports.
pub fn machine(root: &Root) -> (r: String)
    ensures
        r@ == machine_text(root@),
{
    let vendor = diagnose::vendor(root);
    let product = diagnose::product(root);
    let kernel = match root.read(OSRELEASE) {
        Some(k) => k,
        None => String::new(),
    };
    if vendor.as_str().unicode_len() == 0 && product.as_str().unicode_len() == 0 {
        cat("unknown machine, Linux ", kernel.as_str())
    } else {
        cat3(vendor.as_str(), " ", product.as_str()).concat(", Linux ").concat(kernel.as_str())
    }
}

} // verus!
