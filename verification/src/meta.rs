//! A map from manifest signing keys to what firmware they sign: the
//! firmware variant and the version range, keyed by the MD5 hash of the
//! public key and exponent, as a lower-case hex string.

use vstd::prelude::*;
use vstd::string::StringExecFns;

verus! {

/// The firmware family a signing key belongs to: the regular engine, the
/// trusted execution engine of small cores, or the server platform
/// services.
#[derive(Clone, Copy, Debug, PartialEq, Eq, Structural)]
pub enum Variant {
    ME,
    TXE,
    SPS,
}

/// What is known about one signing key: the firmware variant and the
/// version range it was seen on.
#[derive(Clone, Debug)]
pub struct Meta {
    pub variant: Variant,
    pub version: Vec<String>,
}

/// The metadata of the known signing keys, by key hash.
pub open spec fn spec_meta_for_key(key: Seq<char>) -> Option<(Variant, Seq<Seq<char>>)> {
    if key == "8431285d43b0f2a2f520d7cab3d34178"@ {
        Some((Variant::ME, seq!["2.0.x.x"@, "2.1.x.x"@, "2.2.x.x"@]))
    } else     if key == "4c00dd06c28119b5c1e5bb8eb6f30596"@ {
        Some((Variant::ME, seq!["2.5.x.x"@, "2.6.x.x"@]))
    } else     if key == "9c24077a7f7490967855e9c4c16c6b9e"@ {
        Some((Variant::ME, seq!["3.x.x.x"@]))
    } else     if key == "bf41464be736f5520d80c67f6789020e"@ {
        Some((Variant::ME, seq!["4.x.x.x"@]))
    } else     if key == "5c7169b7e7065323fb7b3b5657b4d57a"@ {
        Some((Variant::ME, seq!["5.x.x.x"@]))
    } else     if key == "763e59ebe235e45a197a5b1a378dfa04"@ {
        Some((Variant::ME, seq!["6.x.x.x"@]))
    } else     if key == "3a98c847d609c253e145bd36512629cb"@ {
        Some((Variant::ME, seq!["6.0.50.x"@]))
    } else     if key == "0903fc25b0f6bed8c4ed724aca02124c"@ {
        Some((Variant::ME, seq!["7.x.x.x"@, "8.x.x.x"@]))
    } else     if key == "2011ae6df87c40fba09e3f20459b1ce0"@ {
        Some((Variant::ME, seq!["9.0.x.x"@, "9.1.x.x"@]))
    } else     if key == "e8427c5691cf8b56bc5cdd82746957ed"@ {
        Some((Variant::ME, seq!["9.5.x.x"@, "10.x.x.x"@]))
    } else     if key == "986a78e481f185f7d54e4af06eb413f6"@ {
        Some((Variant::ME, seq!["11.x.x.x"@]))
    } else     if key == "3efc26920b4bee901b624771c742887b"@ {
        Some((Variant::ME, seq!["12.x.x.x"@]))
    } else     if key == "8e4f834644da2bef03039d69d41ecf02"@ {
        Some((Variant::ME, seq!["14.x.x.x"@]))
    } else     if key == "b29411f89bf20ed177d411c46e8ec185"@ {
        Some((Variant::ME, seq!["15.x.x.x"@]))
    } else     if key == "5887caf9b677601ffb257cc98a13d2a9"@ {
        Some((Variant::ME, seq!["16.x.x.x"@]))
    } else     if key == "bda0b6bb8ca0bf0cac55ac4c4d55e0f2"@ {
        Some((Variant::TXE, seq!["1.x.x.x"@]))
    } else     if key == "b726a2ab9cd59d4e62fe2bead7cf6997"@ {
        Some((Variant::TXE, seq!["1.x.x.x"@]))
    } else     if key == "0633d7f951a3e7968ae7460861be9cfb"@ {
        Some((Variant::TXE, seq!["2.x.x.x"@]))
    } else     if key == "1d0a36e9f5881540d8e4b382c6612ed8"@ {
        Some((Variant::TXE, seq!["3.x.x.x"@]))
    } else     if key == "be900fef868f770d266b1fc67e887e69"@ {
        Some((Variant::SPS, seq!["2.x.x.x"@]))
    } else     if key == "4622e3f2cb212a89c90a4de3336d88d2"@ {
        Some((Variant::SPS, seq!["3.x.x.x"@]))
    } else     if key == "31ef3d950eac99d18e187375c0764ca4"@ {
        Some((Variant::SPS, seq!["4.x.x.x"@]))
    } else {
        None
    }
}

/// Whether two key strings are the same.
fn key_eq(a: &str, b: &str) -> (r: bool)
    ensures
        r == (a@ == b@),
{
    let sa = String::from_str(a);
    let sb = String::from_str(b);
    sa == sb
}

/// Metadata for a manifest signing key, given as the hex MD5 hash of the
/// public key with its exponent; `None` for a key not seen before.
pub fn get_meta_for_key(key_hash: &str) -> (r: Option<Meta>)
    ensures
        match spec_meta_for_key(key_hash@) {
            Some((variant, versions)) => r matches Some(m) && m.variant == variant
                && crate::codec::spec_names(m.version@) == versions,
            None => r is None,
        },
{
    if key_eq(key_hash, "8431285d43b0f2a2f520d7cab3d34178") {
        let mut v: Vec<String> = Vec::new();
        v.push(String::from_str("2.0.x.x"));
        v.push(String::from_str("2.1.x.x"));
        v.push(String::from_str("2.2.x.x"));
        proof {
            assert(crate::codec::spec_names(v@) =~= seq!["2.0.x.x"@, "2.1.x.x"@, "2.2.x.x"@]);
        }
        return Some(Meta { variant: Variant::ME, version: v });
    }
    if key_eq(key_hash, "4c00dd06c28119b5c1e5bb8eb6f30596") {
        let mut v: Vec<String> = Vec::new();
        v.push(String::from_str("2.5.x.x"));
        v.push(String::from_str("2.6.x.x"));
        proof {
            assert(crate::codec::spec_names(v@) =~= seq!["2.5.x.x"@, "2.6.x.x"@]);
        }
        return Some(Meta { variant: Variant::ME, version: v });
    }
    if key_eq(key_hash, "9c24077a7f7490967855e9c4c16c6b9e") {
        let mut v: Vec<String> = Vec::new();
        v.push(String::from_str("3.x.x.x"));
        proof {
            assert(crate::codec::spec_names(v@) =~= seq!["3.x.x.x"@]);
        }
        return Some(Meta { variant: Variant::ME, version: v });
    }
    if key_eq(key_hash, "bf41464be736f5520d80c67f6789020e") {
        let mut v: Vec<String> = Vec::new();
        v.push(String::from_str("4.x.x.x"));
        proof {
            assert(crate::codec::spec_names(v@) =~= seq!["4.x.x.x"@]);
        }
        return Some(Meta { variant: Variant::ME, version: v });
    }
    if key_eq(key_hash, "5c7169b7e7065323fb7b3b5657b4d57a") {
        let mut v: Vec<String> = Vec::new();
        v.push(String::from_str("5.x.x.x"));
        proof {
            assert(crate::codec::spec_names(v@) =~= seq!["5.x.x.x"@]);
        }
        return Some(Meta { variant: Variant::ME, version: v });
    }
    if key_eq(key_hash, "763e59ebe235e45a197a5b1a378dfa04") {
        let mut v: Vec<String> = Vec::new();
        v.push(String::from_str("6.x.x.x"));
        proof {
            assert(crate::codec::spec_names(v@) =~= seq!["6.x.x.x"@]);
        }
        return Some(Meta { variant: Variant::ME, version: v });
    }
    if key_eq(key_hash, "3a98c847d609c253e145bd36512629cb") {
        let mut v: Vec<String> = Vec::new();
        v.push(String::from_str("6.0.50.x"));
        proof {
            assert(crate::codec::spec_names(v@) =~= seq!["6.0.50.x"@]);
        }
        return Some(Meta { variant: Variant::ME, version: v });
    }
    if key_eq(key_hash, "0903fc25b0f6bed8c4ed724aca02124c") {
        let mut v: Vec<String> = Vec::new();
        v.push(String::from_str("7.x.x.x"));
        v.push(String::from_str("8.x.x.x"));
        proof {
            assert(crate::codec::spec_names(v@) =~= seq!["7.x.x.x"@, "8.x.x.x"@]);
        }
        return Some(Meta { variant: Variant::ME, version: v });
    }
    if key_eq(key_hash, "2011ae6df87c40fba09e3f20459b1ce0") {
        let mut v: Vec<String> = Vec::new();
        v.push(String::from_str("9.0.x.x"));
        v.push(String::from_str("9.1.x.x"));
        proof {
            assert(crate::codec::spec_names(v@) =~= seq!["9.0.x.x"@, "9.1.x.x"@]);
        }
        return Some(Meta { variant: Variant::ME, version: v });
    }
    if key_eq(key_hash, "e8427c5691cf8b56bc5cdd82746957ed") {
        let mut v: Vec<String> = Vec::new();
        v.push(String::from_str("9.5.x.x"));
        v.push(String::from_str("10.x.x.x"));
        proof {
            assert(crate::codec::spec_names(v@) =~= seq!["9.5.x.x"@, "10.x.x.x"@]);
        }
        return Some(Meta { variant: Variant::ME, version: v });
    }
    if key_eq(key_hash, "986a78e481f185f7d54e4af06eb413f6") {
        let mut v: Vec<String> = Vec::new();
        v.push(String::from_str("11.x.x.x"));
        proof {
            assert(crate::codec::spec_names(v@) =~= seq!["11.x.x.x"@]);
        }
        return Some(Meta { variant: Variant::ME, version: v });
    }
    if key_eq(key_hash, "3efc26920b4bee901b624771c742887b") {
        let mut v: Vec<String> = Vec::new();
        v.push(String::from_str("12.x.x.x"));
        proof {
            assert(crate::codec::spec_names(v@) =~= seq!["12.x.x.x"@]);
        }
        return Some(Meta { variant: Variant::ME, version: v });
    }
    if key_eq(key_hash, "8e4f834644da2bef03039d69d41ecf02") {
        let mut v: Vec<String> = Vec::new();
        v.push(String::from_str("14.x.x.x"));
        proof {
            assert(crate::codec::spec_names(v@) =~= seq!["14.x.x.x"@]);
        }
        return Some(Meta { variant: Variant::ME, version: v });
    }
    if key_eq(key_hash, "b29411f89bf20ed177d411c46e8ec185") {
        let mut v: Vec<String> = Vec::new();
        v.push(String::from_str("15.x.x.x"));
        proof {
            assert(crate::codec::spec_names(v@) =~= seq!["15.x.x.x"@]);
        }
        return Some(Meta { variant: Variant::ME, version: v });
    }
    if key_eq(key_hash, "5887caf9b677601ffb257cc98a13d2a9") {
        let mut v: Vec<String> = Vec::new();
        v.push(String::from_str("16.x.x.x"));
        proof {
            assert(crate::codec::spec_names(v@) =~= seq!["16.x.x.x"@]);
        }
        return Some(Meta { variant: Variant::ME, version: v });
    }
    if key_eq(key_hash, "bda0b6bb8ca0bf0cac55ac4c4d55e0f2") {
        let mut v: Vec<String> = Vec::new();
        v.push(String::from_str("1.x.x.x"));
        proof {
            assert(crate::codec::spec_names(v@) =~= seq!["1.x.x.x"@]);
        }
        return Some(Meta { variant: Variant::TXE, version: v });
    }
    if key_eq(key_hash, "b726a2ab9cd59d4e62fe2bead7cf6997") {
        let mut v: Vec<String> = Vec::new();
        v.push(String::from_str("1.x.x.x"));
        proof {
            assert(crate::codec::spec_names(v@) =~= seq!["1.x.x.x"@]);
        }
        return Some(Meta { variant: Variant::TXE, version: v });
    }
    if key_eq(key_hash, "0633d7f951a3e7968ae7460861be9cfb") {
        let mut v: Vec<String> = Vec::new();
        v.push(String::from_str("2.x.x.x"));
        proof {
            assert(crate::codec::spec_names(v@) =~= seq!["2.x.x.x"@]);
        }
        return Some(Meta { variant: Variant::TXE, version: v });
    }
    if key_eq(key_hash, "1d0a36e9f5881540d8e4b382c6612ed8") {
        let mut v: Vec<String> = Vec::new();
        v.push(String::from_str("3.x.x.x"));
        proof {
            assert(crate::codec::spec_names(v@) =~= seq!["3.x.x.x"@]);
        }
        return Some(Meta { variant: Variant::TXE, version: v });
    }
    if key_eq(key_hash, "be900fef868f770d266b1fc67e887e69") {
        let mut v: Vec<String> = Vec::new();
        v.push(String::from_str("2.x.x.x"));
        proof {
            assert(crate::codec::spec_names(v@) =~= seq!["2.x.x.x"@]);
        }
        return Some(Meta { variant: Variant::SPS, version: v });
    }
    if key_eq(key_hash, "4622e3f2cb212a89c90a4de3336d88d2") {
        let mut v: Vec<String> = Vec::new();
        v.push(String::from_str("3.x.x.x"));
        proof {
            assert(crate::codec::spec_names(v@) =~= seq!["3.x.x.x"@]);
        }
        return Some(Meta { variant: Variant::SPS, version: v });
    }
    if key_eq(key_hash, "31ef3d950eac99d18e187375c0764ca4") {
        let mut v: Vec<String> = Vec::new();
        v.push(String::from_str("4.x.x.x"));
        proof {
            assert(crate::codec::spec_names(v@) =~= seq!["4.x.x.x"@]);
        }
        return Some(Meta { variant: Variant::SPS, version: v });
    }
    None
}

} // verus!
