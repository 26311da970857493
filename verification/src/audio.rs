//! Audio devices: naming of output endpoints, the PowerShell command that
//! switches the default endpoint and the reading of its output, the choice
//! of browser audio sessions to mute, and media keys.

use crate::text::{
    is_ascii_text, chars_eq, chars_of, contains, contains_chars, lowercase, split_by, split_chars, string_of, to_lowercase,
    trim, trim_chars, views_of,
};
use vstd::prelude::*;
use vstd::string::StringSliceAdditionalSpecFns;

verus! {

/// An audio output endpoint.
#[derive(Debug, Clone)]
pub struct AudioDevice {
    pub id: String,
    pub name: String,
    pub is_default: bool,
}

/// The name of an endpoint: its friendly name, with the device description
/// in parentheses when that adds something, or the description alone, or
/// else `fallback`.
pub open spec fn device_name(friendly: Seq<char>, desc: Seq<char>, fallback: Seq<char>) -> Seq<char> {
    if friendly.len() > 0 {
        if desc.len() > 0 && friendly != desc && !contains(friendly, desc) {
            friendly + " ("@ + desc + ")"@
        } else {
            friendly
        }
    } else if desc.len() > 0 {
        desc
    } else {
        fallback
    }
}

/// The name of an endpoint that has neither a friendly name nor a
/// description: `Unknown Device (...)` with the first 8 bytes of its id.
pub open spec fn unknown_device_name(id: Seq<char>) -> Seq<char> {
    let bytes = vstd::utf8::encode_utf8(id);
    let shown = if bytes.len() > 8 {
        vstd::utf8::decode_utf8(bytes.subrange(0, 8))
    } else {
        id
    };
    "Unknown Device ("@ + shown + ")"@
}

/// The record of the endpoint `id` with the names its property store gave
/// (empty when missing), marked default when `id` is the default endpoint's.
/// An id longer than 8 bytes must not split a character at byte 8 (the
/// truncation would panic there).
pub fn audio_device(id: String, friendly: &str, desc: &str, default_id: &str) -> (r: AudioDevice)
    requires
        vstd::utf8::encode_utf8(id@).len() <= usize::MAX,
        vstd::utf8::encode_utf8(id@).len() > 8 ==> vstd::utf8::is_char_boundary(
            vstd::utf8::encode_utf8(id@),
            8,
        ),
    ensures
        r.id@ == id@,
        r.name@ == device_name(friendly@, desc@, unknown_device_name(id@)),
        r.is_default == (id@ == default_id@),
        friendly@.len() > 0 && contains(friendly@, desc@) ==> r.name@ == friendly@,
        friendly@.len() > 0 && desc@.len() > 0 && !contains(friendly@, desc@) ==> r.name@
            == friendly@ + " ("@ + desc@ + ")"@,
        friendly@.len() == 0 && desc@.len() > 0 ==> r.name@ == desc@,
{
    proof {
        lemma_device_name_law(friendly@, desc@, unknown_device_name(id@));
    }
    let id_str = id.as_str();
    let n = id_str.len();
    let shown: &str = if n > 8 {
        let (head, _) = id_str.split_at(8);
        proof {
            vstd::utf8::encode_utf8_decode_utf8(head@);
            assert(head.spec_bytes() == vstd::utf8::encode_utf8(head@));
            assert(head.spec_bytes() =~= vstd::utf8::encode_utf8(id@).subrange(0, 8));
            assert(head@ == vstd::utf8::decode_utf8(vstd::utf8::encode_utf8(id@).subrange(0, 8)));
        }
        head
    } else {
        id_str
    };
    let mut fallback = String::from_str("Unknown Device (");
    fallback.append(shown);
    fallback.append(")");
    assert(fallback@ == unknown_device_name(id@));
    let f = chars_of(friendly);
    let d = chars_of(desc);
    let name = if f.len() > 0 {
        if d.len() > 0 && !chars_eq(&f, &d) && !contains_chars(&f, &d) {
            let mut nm = String::from_str(friendly);
            nm.append(" (");
            nm.append(desc);
            nm.append(")");
            nm
        } else {
            String::from_str(friendly)
        }
    } else if d.len() > 0 {
        String::from_str(desc)
    } else {
        fallback
    };
    let a = chars_of(id.as_str());
    let b = chars_of(default_id);
    let is_default = chars_eq(&a, &b);
    AudioDevice { id, name, is_default }
}


/// Naming of an endpoint, stated on its inputs: a non-empty friendly name
/// that already contains the description is the name as it is; a description
/// that is non-empty and not inside the friendly name is appended in
/// parentheses; without a friendly name the description is the name; without
/// either the fallback is.
pub proof fn lemma_device_name_law(friendly: Seq<char>, desc: Seq<char>, fallback: Seq<char>)
    ensures
        friendly.len() > 0 && contains(friendly, desc) ==> device_name(friendly, desc, fallback)
            == friendly,
        friendly.len() > 0 && desc.len() > 0 && !contains(friendly, desc) ==> device_name(
            friendly,
            desc,
            fallback,
        ) == friendly + " ("@ + desc + ")"@,
        friendly.len() == 0 && desc.len() > 0 ==> device_name(friendly, desc, fallback) == desc,
        friendly.len() == 0 && desc.len() == 0 ==> device_name(friendly, desc, fallback)
            == fallback,
{
    assert(friendly.subrange(0, friendly.len() as int) =~= friendly);
    assert(crate::text::occurs_at(friendly, friendly, 0));
}

proof fn lemma_encode_split(s: Seq<char>, k: int)
    requires
        0 <= k <= s.len(),
    ensures
        vstd::utf8::encode_utf8(s) == vstd::utf8::encode_utf8(s.take(k)) + vstd::utf8::encode_utf8(
            s.skip(k),
        ),
    decreases k,
{
    if k == 0 {
        assert(s.take(0) =~= Seq::<char>::empty());
        assert(s.skip(0) =~= s);
        assert(vstd::utf8::encode_utf8(s.take(0)) =~= Seq::<u8>::empty());
        assert(vstd::utf8::encode_utf8(s) =~= vstd::utf8::encode_utf8(s.take(k))
            + vstd::utf8::encode_utf8(s.skip(k)));
    } else {
        let d = s.drop_first();
        lemma_encode_split(d, k - 1);
        assert(s.take(k).drop_first() =~= d.take(k - 1));
        assert(s.take(k)[0] == s[0]);
        assert(s.skip(k) =~= d.skip(k - 1));
        assert(vstd::utf8::encode_utf8(s) =~= vstd::utf8::encode_utf8(s.take(k))
            + vstd::utf8::encode_utf8(s.skip(k)));
    }
}

proof fn lemma_ascii_encoding(s: Seq<char>)
    requires
        is_ascii_text(s),
    ensures
        vstd::utf8::encode_utf8(s).len() == s.len(),
        forall|k: int| 0 <= k <= s.len() ==> vstd::utf8::is_char_boundary(#[trigger] vstd::utf8::encode_utf8(s), k),
    decreases s.len(),
{
    broadcast use vstd::utf8::encode_utf8_valid_utf8;

    if s.len() > 0 {
        let d = s.drop_first();
        assert(is_ascii_text(d)) by {
            assert forall|i: int| 0 <= i < d.len() implies (#[trigger] d[i] as u32) < 128 by {
                assert(d[i] == s[i + 1]);
            }
        }
        lemma_ascii_encoding(d);
        assert((s[0] as u32) < 128);
        assert((s[0] as u32) <= 0x7F);
        assert(vstd::utf8::encode_scalar(s[0] as u32).len() == 1);
        let bytes = vstd::utf8::encode_utf8(s);
        assert(bytes == vstd::utf8::encode_scalar(s[0] as u32) + vstd::utf8::encode_utf8(d));
        assert(bytes.len() == s.len());
        vstd::utf8::encode_utf8_first_scalar(s);
        assert(vstd::utf8::length_of_first_scalar(bytes) == 1);
        assert(vstd::utf8::valid_utf8(bytes));
        assert(vstd::utf8::pop_first_scalar(bytes) =~= vstd::utf8::encode_utf8(d));
        assert forall|k: int| 0 <= k <= s.len() implies vstd::utf8::is_char_boundary(#[trigger] vstd::utf8::encode_utf8(s), k) by {
            if k > 0 {
                assert(vstd::utf8::is_char_boundary(vstd::utf8::encode_utf8(d), k - 1));
            }
        }
    }
}

/// For an ASCII endpoint id, the fallback name shows its first 8 characters
/// (all of them when there are fewer), and the id meets the requirements of
/// `audio_device`.
pub proof fn lemma_ascii_unknown_device_name(id: Seq<char>)
    requires
        is_ascii_text(id),
    ensures
        unknown_device_name(id) == "Unknown Device ("@ + id.take(if id.len() > 8 { 8 } else { id.len() as int }) + ")"@,
        vstd::utf8::encode_utf8(id).len() == id.len(),
        id.len() > 8 ==> vstd::utf8::is_char_boundary(vstd::utf8::encode_utf8(id), 8),
{
    broadcast use vstd::utf8::encode_utf8_decode_utf8;

    lemma_ascii_encoding(id);
    if id.len() > 8 {
        let head = id.take(8);
        assert(is_ascii_text(head)) by {
            assert forall|i: int| 0 <= i < head.len() implies (#[trigger] head[i] as u32) < 128 by {
                assert(head[i] == id[i]);
            }
        }
        lemma_ascii_encoding(head);
        lemma_encode_split(id, 8);
        assert(vstd::utf8::encode_utf8(id).subrange(0, 8) =~= vstd::utf8::encode_utf8(head));
    } else {
        assert(id.take(id.len() as int) =~= id);
    }
}

/// A reported role result that is a failure: a hexadecimal code other than
/// one containing `0x0`.
pub open spec fn failed_code(code: Seq<char>) -> bool {
    !contains(code, "0x0"@) && contains(code, "0x"@)
}

/// The role results of the switch report: the text after its first `": "`
/// and before the next, split at `", "`.
pub open spec fn role_results(stdout: Seq<char>) -> Seq<Seq<char>> {
    split_by(split_by(stdout, ": "@)[1], ", "@)
}

/// The report names a role whose switch failed.
pub open spec fn some_role_failed(stdout: Seq<char>) -> bool {
    &&& contains(stdout, "0x"@)
    &&& split_by(stdout, ": "@).len() > 1
    &&& exists|k: int|
        0 <= k < role_results(stdout).len() && failed_code(trim(#[trigger] role_results(stdout)[k]))
}

/// Why a default-endpoint switch failed, from the PowerShell output and exit
/// status, if it did.
pub open spec fn switch_error(stdout: Seq<char>, exit_success: bool) -> Option<Seq<char>> {
    if !exit_success {
        Some("PowerShell終了コードエラー。stdout: "@ + trim(stdout))
    } else if contains(stdout, "Error:"@) {
        Some("SetDefaultEndpoint失敗: "@ + trim(stdout))
    } else if some_role_failed(stdout) {
        Some("1つ以上のロールで切り替えに失敗しました: "@ + trim(stdout))
    } else {
        None
    }
}

/// How a switch is judged, stated on the output: a failed exit is an error;
/// so is a report holding `Error:`; otherwise the switch failed exactly when
/// the report holds `0x`, has a `": "`, and one of the codes listed after
/// its first `": "` (separated by `", "`, each trimmed) holds `0x` but not
/// `0x0`.
pub proof fn lemma_switch_law(stdout: Seq<char>, exit_success: bool)
    ensures
        !exit_success ==> switch_error(stdout, exit_success) == Some(
            "PowerShell終了コードエラー。stdout: "@ + trim(stdout),
        ),
        exit_success && contains(stdout, "Error:"@) ==> switch_error(stdout, exit_success) == Some(
            "SetDefaultEndpoint失敗: "@ + trim(stdout),
        ),
        exit_success && !contains(stdout, "Error:"@) ==> (switch_error(stdout, exit_success) is None
            <==> !(contains(stdout, "0x"@) && split_by(stdout, ": "@).len() > 1 && exists|k: int|
            0 <= k < split_by(split_by(stdout, ": "@)[1], ", "@).len() && !contains(
                trim(#[trigger] split_by(split_by(stdout, ": "@)[1], ", "@)[k]),
                "0x0"@,
            ) && contains(trim(split_by(split_by(stdout, ": "@)[1], ", "@)[k]), "0x"@))),
        exit_success && !contains(stdout, "Error:"@) && switch_error(stdout, exit_success) is Some
            ==> switch_error(stdout, exit_success) == Some(
            "1つ以上のロールで切り替えに失敗しました: "@ + trim(stdout),
        ),
{
    if exit_success && !contains(stdout, "Error:"@) && contains(stdout, "0x"@) && split_by(stdout, ": "@).len() > 1 {
        let rs = split_by(split_by(stdout, ": "@)[1], ", "@);
        if exists|k: int| 0 <= k < rs.len() && !contains(trim(#[trigger] rs[k]), "0x0"@) && contains(trim(rs[k]), "0x"@) {
            let k = choose|k: int| 0 <= k < rs.len() && !contains(trim(#[trigger] rs[k]), "0x0"@) && contains(trim(rs[k]), "0x"@);
            assert(failed_code(trim(role_results(stdout)[k])));
        }
        if some_role_failed(stdout) {
            let k = choose|k: int| 0 <= k < role_results(stdout).len() && failed_code(trim(#[trigger] role_results(stdout)[k]));
            assert(!contains(trim(rs[k]), "0x0"@) && contains(trim(rs[k]), "0x"@));
        }
    }
}

/// Reads the outcome of the switch command from its standard output and
/// whether it exited successfully.
pub fn parse_powershell_output(stdout: &str, exit_success: bool) -> (r: Result<(), String>)
    ensures
        match switch_error(stdout@, exit_success) {
            Some(m) => (r matches Err(e) && e@ == m),
            None => r is Ok,
        },
{
    let cs = chars_of(stdout);
    let trimmed = string_of(&trim_chars(&cs));
    if !exit_success {
        let mut e = String::from_str("PowerShell終了コードエラー。stdout: ");
        e.append(trimmed.as_str());
        return Err(e);
    }
    if contains_chars(&cs, &chars_of("Error:")) {
        let mut e = String::from_str("SetDefaultEndpoint失敗: ");
        e.append(trimmed.as_str());
        return Err(e);
    }
    let hex = chars_of("0x");
    let zero = chars_of("0x0");
    if contains_chars(&cs, &hex) {
        let colon = chars_of(": ");
        let comma = chars_of(", ");
        proof {
            reveal_strlit(": ");
            reveal_strlit(", ");
        }
        let parts = split_chars(&cs, &colon);
        if parts.len() > 1 {
            let codes = split_chars(parts[1].as_slice(), &comma);
            let ghost all = views_of(codes@);
            let mut k: usize = 0;
            while k < codes.len()
                invariant
                    k <= codes@.len(),
                    all == views_of(codes@),
                    all == role_results(stdout@),
                    exit_success,
                    !contains(stdout@, "Error:"@),
                    contains(stdout@, "0x"@),
                    split_by(stdout@, ": "@).len() > 1,
                    trimmed@ == trim(stdout@),
                    hex@ == "0x"@,
                    zero@ == "0x0"@,
                    forall|j: int| 0 <= j < k ==> !failed_code(trim(#[trigger] all[j])),
                decreases codes@.len() - k,
            {
                let t = trim_chars(codes[k].as_slice());
                if !contains_chars(&t, &zero) && contains_chars(&t, &hex) {
                    assert(t@ == trim(all[k as int]));
                    assert(failed_code(trim(role_results(stdout@)[k as int])));
                    assert(some_role_failed(stdout@));
                    let mut e = String::from_str("1つ以上のロールで切り替えに失敗しました: ");
                    e.append(trimmed.as_str());
                    return Err(e);
                }
                k = k + 1;
            }
        }
    }
    Ok(())
}

/// The error a failed switch is reported with: the reason, then the trimmed
/// standard error output.
pub fn switch_outcome(stdout: &str, stderr: &str, exit_success: bool) -> (r: Result<(), String>)
    ensures
        match switch_error(stdout@, exit_success) {
            Some(m) => (r matches Err(e) && e@ == m + "\nStderr: "@ + trim(stderr@)),
            None => r is Ok,
        },
{
    match parse_powershell_output(stdout, exit_success) {
        Ok(()) => Ok(()),
        Err(m) => {
            let mut e = m;
            e.append("\nStderr: ");
            let t = string_of(&trim_chars(&chars_of(stderr)));
            e.append(t.as_str());
            Err(e)
        },
    }
}

/// The PowerShell text before the device id.
pub const SWITCH_SCRIPT_HEAD: &'static str = "$id = '";

/// The PowerShell text after the device id and the `';` that closes it: a
/// C# helper that sets the endpoint as default for the console, multimedia
/// and communications roles through whichever `IPolicyConfig` interface the
/// system offers, and prints the result codes.
pub const SWITCH_SCRIPT_BODY: &'static str = "
$code = @'
using System;
using System.Runtime.InteropServices;

[ComImport, Guid(\"870af99c-171d-4f9e-af0d-e63df40c2bc9\")] class PolicyConfigClient { }
[ComImport, Guid(\"294935CE-F637-4E7C-A41B-AB255460B862\")] class PolicyConfigVistaClient { }

[Guid(\"f8679f50-d128-4fd3-acc1-4471cd697261\"), InterfaceType(ComInterfaceType.InterfaceIsIUnknown)]
interface IPolicyConfig1 {
    [PreserveSig] int GetMixFormat([MarshalAs(UnmanagedType.LPWStr)] string id, out IntPtr f);
    [PreserveSig] int GetDeviceFormat([MarshalAs(UnmanagedType.LPWStr)] string id, int a, out IntPtr f);
    [PreserveSig] int SetDeviceFormat([MarshalAs(UnmanagedType.LPWStr)] string id, IntPtr f, IntPtr a);
    [PreserveSig] int GetProcessingPeriod([MarshalAs(UnmanagedType.LPWStr)] string id, int a, out long p, out long b);
    [PreserveSig] int SetProcessingPeriod([MarshalAs(UnmanagedType.LPWStr)] string id, ref long p);
    [PreserveSig] int GetShareMode([MarshalAs(UnmanagedType.LPWStr)] string id, out int m);
    [PreserveSig] int SetShareMode([MarshalAs(UnmanagedType.LPWStr)] string id, int m);
    [PreserveSig] int GetPropertyValue([MarshalAs(UnmanagedType.LPWStr)] string id, ref Guid k, out IntPtr v);
    [PreserveSig] int SetPropertyValue([MarshalAs(UnmanagedType.LPWStr)] string id, ref Guid k, ref IntPtr v);
    [PreserveSig] int SetDefaultEndpoint([MarshalAs(UnmanagedType.LPWStr)] string id, int r);
    [PreserveSig] int SetEndpointVisibility([MarshalAs(UnmanagedType.LPWStr)] string id, int v);
}

[Guid(\"568b7751-64af-449e-9333-66f81e35d1f1\"), InterfaceType(ComInterfaceType.InterfaceIsIUnknown)]
interface IPolicyConfig2 {
    [PreserveSig] int GetMixFormat([MarshalAs(UnmanagedType.LPWStr)] string id, out IntPtr f);
    [PreserveSig] int GetDeviceFormat([MarshalAs(UnmanagedType.LPWStr)] string id, int a, out IntPtr f);
    [PreserveSig] int SetDeviceFormat([MarshalAs(UnmanagedType.LPWStr)] string id, IntPtr f, IntPtr a);
    [PreserveSig] int GetProcessingPeriod([MarshalAs(UnmanagedType.LPWStr)] string id, int a, out long p, out long b);
    [PreserveSig] int SetProcessingPeriod([MarshalAs(UnmanagedType.LPWStr)] string id, ref long p);
    [PreserveSig] int GetShareMode([MarshalAs(UnmanagedType.LPWStr)] string id, out int m);
    [PreserveSig] int SetShareMode([MarshalAs(UnmanagedType.LPWStr)] string id, int m);
    [PreserveSig] int GetPropertyValue([MarshalAs(UnmanagedType.LPWStr)] string id, ref Guid k, out IntPtr v);
    [PreserveSig] int SetPropertyValue([MarshalAs(UnmanagedType.LPWStr)] string id, ref Guid k, ref IntPtr v);
    [PreserveSig] int SetDefaultEndpoint([MarshalAs(UnmanagedType.LPWStr)] string id, int r);
    [PreserveSig] int SetEndpointVisibility([MarshalAs(UnmanagedType.LPWStr)] string id, int v);
}

[Guid(\"d666063f-1598-4e43-8351-c063cf22039d\"), InterfaceType(ComInterfaceType.InterfaceIsIUnknown)]
interface IPolicyConfig3 {
    [PreserveSig] int GetMixFormat([MarshalAs(UnmanagedType.LPWStr)] string id, out IntPtr f);
    [PreserveSig] int GetDeviceFormat([MarshalAs(UnmanagedType.LPWStr)] string id, int a, out IntPtr f);
    [PreserveSig] int SetDeviceFormat([MarshalAs(UnmanagedType.LPWStr)] string id, IntPtr f, IntPtr a);
    [PreserveSig] int GetProcessingPeriod([MarshalAs(UnmanagedType.LPWStr)] string id, int a, out long p, out long b);
    [PreserveSig] int SetProcessingPeriod([MarshalAs(UnmanagedType.LPWStr)] string id, ref long p);
    [PreserveSig] int GetShareMode([MarshalAs(UnmanagedType.LPWStr)] string id, out int m);
    [PreserveSig] int SetShareMode([MarshalAs(UnmanagedType.LPWStr)] string id, int m);
    [PreserveSig] int GetPropertyValue([MarshalAs(UnmanagedType.LPWStr)] string id, ref Guid k, out IntPtr v);
    [PreserveSig] int SetPropertyValue([MarshalAs(UnmanagedType.LPWStr)] string id, ref Guid k, ref IntPtr v);
    [PreserveSig] int SetDefaultEndpoint([MarshalAs(UnmanagedType.LPWStr)] string id, int r);
    [PreserveSig] int SetEndpointVisibility([MarshalAs(UnmanagedType.LPWStr)] string id, int v);
}

[Guid(\"ca28602d-2214-4c46-b258-487bf03917d5\"), InterfaceType(ComInterfaceType.InterfaceIsIUnknown)]
interface IPolicyConfig4 {
    [PreserveSig] int GetMixFormat([MarshalAs(UnmanagedType.LPWStr)] string id, out IntPtr f);
    [PreserveSig] int GetDeviceFormat([MarshalAs(UnmanagedType.LPWStr)] string id, int a, out IntPtr f);
    [PreserveSig] int SetDeviceFormat([MarshalAs(UnmanagedType.LPWStr)] string id, IntPtr f, IntPtr a);
    [PreserveSig] int GetProcessingPeriod([MarshalAs(UnmanagedType.LPWStr)] string id, int a, out long p, out long b);
    [PreserveSig] int SetProcessingPeriod([MarshalAs(UnmanagedType.LPWStr)] string id, ref long p);
    [PreserveSig] int GetShareMode([MarshalAs(UnmanagedType.LPWStr)] string id, out int m);
    [PreserveSig] int SetShareMode([MarshalAs(UnmanagedType.LPWStr)] string id, int m);
    [PreserveSig] int GetPropertyValue([MarshalAs(UnmanagedType.LPWStr)] string id, ref Guid k, out IntPtr v);
    [PreserveSig] int SetPropertyValue([MarshalAs(UnmanagedType.LPWStr)] string id, ref Guid k, ref IntPtr v);
    [PreserveSig] int SetDefaultEndpoint([MarshalAs(UnmanagedType.LPWStr)] string id, int r);
    [PreserveSig] int SetEndpointVisibility([MarshalAs(UnmanagedType.LPWStr)] string id, int v);
}

[Guid(\"568b9108-44bf-40b4-9006-86afe5b5a620\"), InterfaceType(ComInterfaceType.InterfaceIsIUnknown)]
interface IPolicyConfig5 {
    [PreserveSig] int GetMixFormat([MarshalAs(UnmanagedType.LPWStr)] string id, out IntPtr f);
    [PreserveSig] int GetDeviceFormat([MarshalAs(UnmanagedType.LPWStr)] string id, int a, out IntPtr f);
    [PreserveSig] int SetDeviceFormat([MarshalAs(UnmanagedType.LPWStr)] string id, IntPtr f, IntPtr a);
    [PreserveSig] int GetProcessingPeriod([MarshalAs(UnmanagedType.LPWStr)] string id, int a, out long p, out long b);
    [PreserveSig] int SetProcessingPeriod([MarshalAs(UnmanagedType.LPWStr)] string id, ref long p);
    [PreserveSig] int GetShareMode([MarshalAs(UnmanagedType.LPWStr)] string id, out int m);
    [PreserveSig] int SetShareMode([MarshalAs(UnmanagedType.LPWStr)] string id, int m);
    [PreserveSig] int GetPropertyValue([MarshalAs(UnmanagedType.LPWStr)] string id, ref Guid k, out IntPtr v);
    [PreserveSig] int SetPropertyValue([MarshalAs(UnmanagedType.LPWStr)] string id, ref Guid k, ref IntPtr v);
    [PreserveSig] int SetDefaultEndpoint([MarshalAs(UnmanagedType.LPWStr)] string id, int r);
    [PreserveSig] int SetEndpointVisibility([MarshalAs(UnmanagedType.LPWStr)] string id, int v);
}

public static class Switcher {
    public static void Set(string id) {
        if (TrySwitch(new PolicyConfigClient(), id, \"Client\")) return;
        if (TrySwitch(new PolicyConfigVistaClient(), id, \"VistaClient\")) return;
        Console.WriteLine(\"Error: No supported IPolicyConfig interface found.\");
    }

    private static bool TrySwitch(object client, string id, string clientName) {
        int r0, r1, r2;
        
        var v1 = client as IPolicyConfig1;
        if (v1 != null) {
            r0 = v1.SetDefaultEndpoint(id, 0); r1 = v1.SetDefaultEndpoint(id, 1); r2 = v1.SetDefaultEndpoint(id, 2);
            Console.WriteLine(\"Success({0}-v1): 0x{1:X}, 0x{2:X}, 0x{3:X}\", clientName, r0, r1, r2);
            return true;
        }
        var v2 = client as IPolicyConfig2;
        if (v2 != null) {
            r0 = v2.SetDefaultEndpoint(id, 0); r1 = v2.SetDefaultEndpoint(id, 1); r2 = v2.SetDefaultEndpoint(id, 2);
            Console.WriteLine(\"Success({0}-v2): 0x{1:X}, 0x{2:X}, 0x{3:X}\", clientName, r0, r1, r2);
            return true;
        }
        var v3 = client as IPolicyConfig3;
        if (v3 != null) {
            r0 = v3.SetDefaultEndpoint(id, 0); r1 = v3.SetDefaultEndpoint(id, 1); r2 = v3.SetDefaultEndpoint(id, 2);
            Console.WriteLine(\"Success({0}-v3): 0x{1:X}, 0x{2:X}, 0x{3:X}\", clientName, r0, r1, r2);
            return true;
        }
        var v4 = client as IPolicyConfig4;
        if (v4 != null) {
            r0 = v4.SetDefaultEndpoint(id, 0); r1 = v4.SetDefaultEndpoint(id, 1); r2 = v4.SetDefaultEndpoint(id, 2);
            Console.WriteLine(\"Success({0}-v4): 0x{1:X}, 0x{2:X}, 0x{3:X}\", clientName, r0, r1, r2);
            return true;
        }
        var v5 = client as IPolicyConfig5;
        if (v5 != null) {
            r0 = v5.SetDefaultEndpoint(id, 0); r1 = v5.SetDefaultEndpoint(id, 1); r2 = v5.SetDefaultEndpoint(id, 2);
            Console.WriteLine(\"Success({0}-v5): 0x{1:X}, 0x{2:X}, 0x{3:X}\", clientName, r0, r1, r2);
            return true;
        }
        return false;
    }
}
'@;
Add-Type -TypeDefinition $code; [Switcher]::Set($id)";

/// The PowerShell command that makes `device_id` the default endpoint.
pub fn switch_script(device_id: &str) -> (r: String)
    ensures
        r@ == SWITCH_SCRIPT_HEAD@ + device_id@ + "';"@ + SWITCH_SCRIPT_BODY@,
{
    let mut r = String::from_str(SWITCH_SCRIPT_HEAD);
    r.append(device_id);
    r.append("';");
    r.append(SWITCH_SCRIPT_BODY);
    r
}


/// The process names of the browsers whose sessions are muted together.
pub open spec fn browser_names() -> Seq<Seq<char>> {
    seq!["chrome"@, "msedge"@, "firefox"@, "opera"@, "brave"@, "vivaldi"@]
}

/// A process is a browser when its lower-cased name contains one of the
/// browser names.
pub open spec fn is_browser(process_name: Seq<char>) -> bool {
    exists|k: int|
        0 <= k < browser_names().len() && contains(
            lowercase(process_name),
            #[trigger] browser_names()[k],
        )
}

/// Whether the process with this name is a browser.
pub fn is_browser_process(process_name: &str) -> (r: bool)
    ensures
        r == is_browser(process_name@),
        r <==> (contains(lowercase(process_name@), "chrome"@) || contains(
            lowercase(process_name@),
            "msedge"@,
        ) || contains(lowercase(process_name@), "firefox"@) || contains(
            lowercase(process_name@),
            "opera"@,
        ) || contains(lowercase(process_name@), "brave"@) || contains(
            lowercase(process_name@),
            "vivaldi"@,
        )),
{
    proof {
        lemma_browser_law(process_name@);
    }
    let low_str = to_lowercase(process_name);
    let low = chars_of(low_str.as_str());
    let names = [
        chars_of("chrome"),
        chars_of("msedge"),
        chars_of("firefox"),
        chars_of("opera"),
        chars_of("brave"),
        chars_of("vivaldi"),
    ];
    let ghost bs = browser_names();
    assert(views_of(names@) =~= bs);
    let mut k: usize = 0;
    while k < 6
        invariant
            k <= 6,
            low@ == lowercase(process_name@),
            names@.len() == 6,
            views_of(names@) == bs,
            bs == browser_names(),
            forall|j: int| 0 <= j < k ==> !contains(low@, #[trigger] bs[j]),
        decreases 6 - k,
    {
        assert(names@[k as int]@ == bs[k as int]);
        if contains_chars(&low, names[k].as_slice()) {
            return true;
        }
        k = k + 1;
    }
    false
}

/// Which processes are browsers, stated on the name: exactly those whose
/// lower-cased name contains `chrome`, `msedge`, `firefox`, `opera`, `brave`
/// or `vivaldi`.
pub proof fn lemma_browser_law(process_name: Seq<char>)
    ensures
        is_browser(process_name) <==> (contains(lowercase(process_name), "chrome"@) || contains(
            lowercase(process_name),
            "msedge"@,
        ) || contains(lowercase(process_name), "firefox"@) || contains(
            lowercase(process_name),
            "opera"@,
        ) || contains(lowercase(process_name), "brave"@) || contains(
            lowercase(process_name),
            "vivaldi"@,
        )),
{
    let low = lowercase(process_name);
    let b = browser_names();
    assert(b[0] == "chrome"@);
    assert(b[1] == "msedge"@);
    assert(b[2] == "firefox"@);
    assert(b[3] == "opera"@);
    assert(b[4] == "brave"@);
    assert(b[5] == "vivaldi"@);
    assert(b.len() == 6);
    if is_browser(process_name) {
        let k = choose|k: int| 0 <= k < b.len() && contains(low, #[trigger] b[k]);
        assert(k == 0 || k == 1 || k == 2 || k == 3 || k == 4 || k == 5);
    }
}

/// Muting state while going through a browser's audio sessions: the first
/// session whose mute state could be read decides the new state (its
/// opposite), and every session is set to the state decided so far.
pub struct MuteToggle {
    pub toggled: bool,
    pub final_state: bool,
}

/// The state after a session whose mute state read `current` (`None` when it
/// could not be read, or was not asked for once the state was decided).
pub open spec fn mute_step(toggled: bool, final_state: bool, current: Option<bool>) -> (bool, bool) {
    if !toggled {
        match current {
            Some(m) => (true, !m),
            None => (false, final_state),
        }
    } else {
        (toggled, final_state)
    }
}

impl MuteToggle {
    /// Nothing decided; sessions are unmuted until a state is read.
    pub fn new() -> (r: MuteToggle)
        ensures
            !r.toggled,
            !r.final_state,
    {
        MuteToggle { toggled: false, final_state: false }
    }

    /// Whether the next session's current mute state is still needed.
    pub fn needs_current(&self) -> (r: bool)
        ensures
            r == !self.toggled,
    {
        !self.toggled
    }

    /// Takes one session's reading and gives the state to set it to.
    pub fn observe(&mut self, current: Option<bool>) -> (set_to: bool)
        ensures
            (final(self).toggled, final(self).final_state) == mute_step(
                old(self).toggled,
                old(self).final_state,
                current,
            ),
            set_to == final(self).final_state,
    {
        if !self.toggled {
            match current {
                Some(m) => {
                    self.final_state = !m;
                    self.toggled = true;
                },
                None => {},
            }
        }
        self.final_state
    }
}

/// The state after the sessions' readings `obs`, in order.
pub open spec fn mute_run(obs: Seq<Option<bool>>) -> (bool, bool)
    decreases obs.len(),
{
    if obs.len() == 0 {
        (false, false)
    } else {
        let (t, f) = mute_run(obs.drop_last());
        mute_step(t, f, obs.last())
    }
}

/// The first mute state that could be read.
pub open spec fn first_reading(obs: Seq<Option<bool>>) -> Option<bool>
    decreases obs.len(),
{
    if obs.len() == 0 {
        None
    } else if obs[0] is Some {
        obs[0]
    } else {
        first_reading(obs.drop_first())
    }
}

pub proof fn lemma_first_reading_push(obs: Seq<Option<bool>>, x: Option<bool>)
    ensures
        first_reading(obs.push(x)) == if first_reading(obs) is Some {
            first_reading(obs)
        } else {
            x
        },
    decreases obs.len(),
{
    if obs.len() == 0 {
        assert(obs.push(x).drop_first() =~= Seq::<Option<bool>>::empty());
        assert(obs.push(x)[0] == x);
        assert(first_reading(Seq::<Option<bool>>::empty()) is None);
    } else {
        assert(obs.push(x)[0] == obs[0]);
        assert(obs.push(x).drop_first() =~= obs.drop_first().push(x));
        lemma_first_reading_push(obs.drop_first(), x);
    }
}

/// Whatever the order of readings, the sessions end up in the opposite of
/// the first state that could be read (unmuted when none could), and the
/// state, once decided, stays.
pub proof fn lemma_mute_run(obs: Seq<Option<bool>>)
    ensures
        mute_run(obs) == match first_reading(obs) {
            Some(m) => (true, !m),
            None => (false, false),
        },
    decreases obs.len(),
{
    if obs.len() > 0 {
        lemma_mute_run(obs.drop_last());
        lemma_first_reading_push(obs.drop_last(), obs.last());
        assert(obs.drop_last().push(obs.last()) =~= obs);
    }
}

/// The state each session is set to when `MuteToggle` goes through sessions
/// with the mute readings `readings`, in order: from the first session whose
/// state could be read on, the opposite of that reading; before it, unmuted.
pub fn mute_decisions(readings: &[Option<bool>]) -> (r: Vec<bool>)
    ensures
        r@.len() == readings@.len(),
        forall|i: int|
            0 <= i < readings@.len() ==> #[trigger] r@[i] == match first_reading(
                readings@.take(i + 1),
            ) {
                Some(m) => !m,
                None => false,
            },
{
    let mut toggle = MuteToggle::new();
    let mut out: Vec<bool> = Vec::new();
    let mut i: usize = 0;
    assert(readings@.take(0) =~= Seq::<Option<bool>>::empty());
    while i < readings.len()
        invariant
            i <= readings@.len(),
            out@.len() == i,
            (toggle.toggled, toggle.final_state) == mute_run(readings@.take(i as int)),
            forall|j: int|
                0 <= j < i ==> #[trigger] out@[j] == match first_reading(readings@.take(j + 1)) {
                    Some(m) => !m,
                    None => false,
                },
        decreases readings@.len() - i,
    {
        let set_to = toggle.observe(readings[i]);
        proof {
            assert(readings@.take(i + 1).drop_last() =~= readings@.take(i as int));
            assert(readings@.take(i + 1).last() == readings@[i as int]);
            lemma_mute_run(readings@.take(i + 1));
        }
        out.push(set_to);
        i = i + 1;
    }
    out
}

/// A media key sent to the system.
pub enum MediaKey {
    PlayPause,
    NextTrack,
    PreviousTrack,
}

/// The virtual-key code of a media key.
pub fn media_key_code(key: MediaKey) -> (r: u16)
    ensures
        r == match key {
            MediaKey::PlayPause => 0xB3u16,
            MediaKey::NextTrack => 0xB0u16,
            MediaKey::PreviousTrack => 0xB1u16,
        },
{
    match key {
        MediaKey::PlayPause => 0xB3,
        MediaKey::NextTrack => 0xB0,
        MediaKey::PreviousTrack => 0xB1,
    }
}

} // verus!
