//! Abbreviations for common EXIF field names.
//!
//! The table maps short template keys to official EXIF tag names; the
//! swapped table resolves tag names back to their abbreviations. Reading
//! EXIF data out of image files is the surrounding application's job.

use vstd::prelude::*;

verus! {

use vstd::string::StringExecFns;

/// The abbreviation table: short key first, official EXIF tag name second.
pub open spec fn exif_table() -> Seq<(Seq<char>, Seq<char>)> {
    seq![
        ("Mod"@, "Model"@),
        ("SW"@, "Software"@),
        ("A"@, "Artist"@),
        ("F"@, "FocalLength"@),
        ("Exp"@, "ExposureTime"@),
        ("F/2"@, "FNumber"@),
        ("Prog"@, "ExposureProgram"@),
        ("ISO"@, "PhotographicSensitivity"@),
        ("Date"@, "DateTimeOriginal"@),
        ("Bias"@, "ExposureBiasValue"@),
        ("MM"@, "MeteringMode"@),
        ("EM"@, "ExposureMode"@),
        ("LS"@, "LightSource"@),
        ("CS"@, "ColorSpace"@),
        ("SM"@, "SensingMethod"@),
        ("WB"@, "WhiteBalance"@),
    ]
}

/// Builds the table of EXIF abbreviations.
pub fn create_exif_abbreviations() -> (r: Vec<(String, String)>)
    ensures
        r@.map_values(|p: (String, String)| (p.0@, p.1@)) == exif_table(),
{
    let mut v: Vec<(String, String)> = Vec::new();
    v.push((String::from_str("Mod"), String::from_str("Model")));
    v.push((String::from_str("SW"), String::from_str("Software")));
    v.push((String::from_str("A"), String::from_str("Artist")));
    v.push((String::from_str("F"), String::from_str("FocalLength")));
    v.push((String::from_str("Exp"), String::from_str("ExposureTime")));
    v.push((String::from_str("F/2"), String::from_str("FNumber")));
    v.push((String::from_str("Prog"), String::from_str("ExposureProgram")));
    v.push((String::from_str("ISO"), String::from_str("PhotographicSensitivity")));
    v.push((String::from_str("Date"), String::from_str("DateTimeOriginal")));
    v.push((String::from_str("Bias"), String::from_str("ExposureBiasValue")));
    v.push((String::from_str("MM"), String::from_str("MeteringMode")));
    v.push((String::from_str("EM"), String::from_str("ExposureMode")));
    v.push((String::from_str("LS"), String::from_str("LightSource")));
    v.push((String::from_str("CS"), String::from_str("ColorSpace")));
    v.push((String::from_str("SM"), String::from_str("SensingMethod")));
    v.push((String::from_str("WB"), String::from_str("WhiteBalance")));
    proof {
        assert(v@.map_values(|p: (String, String)| (p.0@, p.1@)) =~= exif_table());
    }
    v
}

/// Swaps every pair of a key-value table, turning it into its inverse
/// direction.
pub fn swap_map(map: Vec<(String, String)>) -> (r: Vec<(String, String)>)
    ensures
        r@.len() == map@.len(),
        forall|i: int|
            0 <= i < map@.len() ==> (#[trigger] r@[i]).0@ == map@[i].1@ && r@[i].1@ == map@[i].0@,
{
    let mut out: Vec<(String, String)> = Vec::new();
    let n = map.len();
    let mut i: usize = 0;
    while i < n
        invariant
            0 <= i <= n,
            n == map@.len(),
            out@.len() == i,
            forall|j: int|
                0 <= j < i ==> (#[trigger] out@[j]).0@ == map@[j].1@ && out@[j].1@ == map@[j].0@,
        decreases n - i,
    {
        let k = map[i].1.clone();
        let v = map[i].0.clone();
        out.push((k, v));
        i = i + 1;
    }
    out
}

} // verus!
