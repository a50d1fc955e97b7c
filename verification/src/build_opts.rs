use vstd::prelude::*;

verus! {

/// Switches of the client build tool. The build string they produce is
/// handed to the packaging scripts.
#[derive(Clone, Copy, Debug)]
pub struct AlxBuildFlags {
    /// Optimized build.
    pub is_release: bool,
    /// Build offline against the locked dependency set.
    pub reproducible: bool,
    /// Leave the CUDA interop feature out.
    pub no_nvidia: bool,
    /// Bundle the media libraries with the client.
    pub bundle_ffmpeg: bool,
    /// Let the build fetch dependencies itself.
    pub fetch_crates: bool,
}

impl Default for AlxBuildFlags {
    fn default() -> (r: AlxBuildFlags)
        ensures
            r.is_release,
            r.reproducible,
            r.no_nvidia,
            r.bundle_ffmpeg,
            !r.fetch_crates,
    {
        AlxBuildFlags {
            is_release: true,
            reproducible: true,
            no_nvidia: true,
            bundle_ffmpeg: true,
            fetch_crates: false,
        }
    }
}

impl AlxBuildFlags {
    /// The flag section of the build string.
    pub open spec fn spec_flag_part(self) -> Seq<char> {
        if self.is_release && self.reproducible {
            "--release --offline --locked"@
        } else if self.is_release {
            "--release"@
        } else if self.reproducible {
            "--offline --locked"@
        } else {
            Seq::<char>::empty()
        }
    }

    /// The feature list of the build string.
    pub open spec fn spec_feature_part(self) -> Seq<char> {
        if self.bundle_ffmpeg && !self.no_nvidia {
            "bundled-ffmpeg,cuda-interop"@
        } else if self.bundle_ffmpeg {
            "bundled-ffmpeg"@
        } else if !self.no_nvidia {
            "cuda-interop"@
        } else {
            Seq::<char>::empty()
        }
    }

    /// The whole build string: the selected flags, then the selected
    /// features behind `--features`, with single spaces between the
    /// sections that are present.
    pub open spec fn spec_build_string(self) -> Seq<char> {
        if !self.bundle_ffmpeg && self.no_nvidia {
            self.spec_flag_part()
        } else if !self.is_release && !self.reproducible {
            "--features "@ + self.spec_feature_part()
        } else {
            self.spec_flag_part() + " --features "@ + self.spec_feature_part()
        }
    }

    /// Renders the selected switches as one build string.
    pub fn make_build_string(&self) -> (r: String)
        ensures
            r@ == self.spec_build_string(),
    {
        let mut s = String::new();
        if self.is_release && self.reproducible {
            s.append("--release --offline --locked");
        } else if self.is_release {
            s.append("--release");
        } else if self.reproducible {
            s.append("--offline --locked");
        }
        proof {
            assert(s@ =~= self.spec_flag_part());
        }
        if self.bundle_ffmpeg || !self.no_nvidia {
            if self.is_release || self.reproducible {
                s.append(" --features ");
            } else {
                s.append("--features ");
            }
            if self.bundle_ffmpeg && !self.no_nvidia {
                s.append("bundled-ffmpeg,cuda-interop");
            } else if self.bundle_ffmpeg {
                s.append("bundled-ffmpeg");
            } else {
                s.append("cuda-interop");
            }
        }
        proof {
            assert(s@ =~= self.spec_build_string());
        }
        s
    }
}

/// Processor architecture of a UWP client package.
#[derive(Clone, Copy, Debug)]
pub enum UWPArch {
    X86_64,
    Aarch64,
}

impl UWPArch {
    /// The architecture's name as the build targets spell it.
    pub fn target_name(&self) -> (r: String)
        ensures
            self is X86_64 ==> r@ == "x86_64"@,
            self is Aarch64 ==> r@ == "aarch64"@,
    {
        match self {
            UWPArch::X86_64 => {
                let mut s = String::new();
                s.append("x86_64");
                proof {
                    assert(s@ =~= "x86_64"@);
                }
                s
            },
            UWPArch::Aarch64 => {
                let mut s = String::new();
                s.append("aarch64");
                proof {
                    assert(s@ =~= "aarch64"@);
                }
                s
            },
        }
    }
}

/// The architecture's name as the packaging batch scripts spell it.
pub fn batch_arch_str(arch: UWPArch) -> (r: &'static str)
    ensures
        arch is X86_64 ==> r@ == "x64"@,
        arch is Aarch64 ==> r@ == "arm64"@,
{
    match arch {
        UWPArch::X86_64 => "x64",
        UWPArch::Aarch64 => "arm64",
    }
}

/// The Android client variant a build is packaged for.
#[derive(Clone, Copy, Debug)]
pub enum AndroidFlavor {
    /// Any conformant headset.
    Generic,
    /// The first and second standalone headset generations.
    OculusQuest,
    /// Headsets on the newer vendor UI generation.
    Pico,
    /// Headsets on the older vendor UI generation.
    PicoV4,
}

} // verus!
