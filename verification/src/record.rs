use vstd::prelude::*;

use crate::error::VexError;

verus! {

/// A stored emulator configuration: the executable to launch, its
/// startup argument vector (order significant), and an optional
/// free-text description.
#[derive(Debug)]
pub struct QemuConfig {
    pub qemu_bin: String,
    pub args: Vec<String>,
    pub desc: Option<String>,
}

/// The mathematical model of a configuration record.
pub ghost struct ConfigView {
    pub qemu_bin: Seq<char>,
    pub args: Seq<Seq<char>>,
    pub desc: Option<Seq<char>>,
}

impl View for QemuConfig {
    type V = ConfigView;

    open spec fn view(&self) -> ConfigView {
        ConfigView {
            qemu_bin: self.qemu_bin@,
            args: self.args.deep_view(),
            desc: self.desc.deep_view(),
        }
    }
}

/// A record is valid when its executable name is non-empty.
pub open spec fn valid_config(c: ConfigView) -> bool {
    c.qemu_bin.len() > 0
}

/// Accepts exactly the records whose executable name is non-empty.
pub fn validate_config(config: &QemuConfig) -> (r: Result<(), VexError>)
    ensures
        r is Ok <==> valid_config(config@),
        r is Err ==> r->Err_0 is InvalidConfig,
{
    if config.qemu_bin.as_str().is_empty() {
        Err(VexError::InvalidConfig("QEMU binary path cannot be empty".to_owned()))
    } else {
        Ok(())
    }
}

} // verus!
