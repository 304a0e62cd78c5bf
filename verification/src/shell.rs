//! The shell function that wraps `ez`, so that it can change the shell's
//! directory and run commands in it after it exits.
use vstd::prelude::*;

use crate::error::EzError;

verus! {

/// The wrapper for bash and zsh.
pub const POSIX_SHELL_INIT: &'static str = r#"ez() {
    local tmp=$(mktemp)
    local post_cmd=$(mktemp)
    local extra_args=()
    while true; do
        command ez "$@" "${extra_args[@]}" --cd-file="$tmp" --post-cmd-file="$post_cmd"
        local ret=$?
        extra_args=()
        if [ -s "$post_cmd" ]; then
            if [ -s "$tmp" ]; then
                extra_args=(--repo "$(cat "$tmp")")
            fi
            source "$post_cmd"
            : > "$post_cmd"
            : > "$tmp"
            continue
        fi
        break
    done
    if [ -s "$tmp" ]; then
        cd "$(cat "$tmp")"
    fi
    rm -f "$tmp" "$post_cmd"
    return $ret
}"#;

/// The wrapper for fish.
pub const FISH_SHELL_INIT: &'static str = r#"function ez
    set tmp (mktemp)
    set post_cmd (mktemp)
    set extra_args
    while true
        command ez $argv $extra_args --cd-file="$tmp" --post-cmd-file="$post_cmd"
        set ret $status
        set extra_args
        if test -s "$post_cmd"
            if test -s "$tmp"
                set extra_args --repo (cat "$tmp")
            end
            source "$post_cmd"
            echo -n > "$post_cmd"
            echo -n > "$tmp"
            continue
        end
        break
    end
    if test -s "$tmp"
        cd (cat "$tmp")
    end
    rm -f "$tmp" "$post_cmd"
    return $ret
end"#;

/// The wrapper for PowerShell.
pub const PWSH_SHELL_INIT: &'static str = r#"function ez {
    $tmp = Join-Path ([IO.Path]::GetTempPath()) "ez-cd-$PID-$(Get-Random)"
    $postCmd = Join-Path ([IO.Path]::GetTempPath()) "ez-post-$PID-$(Get-Random)"
    $extraArgs = @()
    while ($true) {
        & (Get-Command ez -CommandType Application) @args $extraArgs --cd-file="$tmp" --post-cmd-file="$postCmd"
        $extraArgs = @()
        if ((Test-Path $postCmd) -and (Get-Item $postCmd).Length -gt 0) {
            if ((Test-Path $tmp) -and (Get-Item $tmp).Length -gt 0) {
                $extraArgs = @('--repo', (Get-Content $tmp -Raw).Trim())
            }
            . $postCmd
            [IO.File]::WriteAllText($postCmd, '')
            [IO.File]::WriteAllText($tmp, '')
            continue
        }
        break
    }
    if ((Test-Path $tmp) -and (Get-Item $tmp).Length -gt 0) {
        $dest = (Get-Content $tmp -Raw).Trim() -replace '^\\\\\?\\', ''
        if ($dest) { Set-Location $dest }
    }
    Remove-Item $tmp, $postCmd -Force -ErrorAction SilentlyContinue
}"#;

/// The shell function for a shell, by its name; an error for a shell
/// without one.
pub fn shell_init(shell: &str) -> (r: Result<&'static str, EzError>)
    ensures
        if shell@ == "bash"@ || shell@ == "zsh"@ {
            r == Ok::<&'static str, EzError>(POSIX_SHELL_INIT)
        } else if shell@ == "fish"@ {
            r == Ok::<&'static str, EzError>(FISH_SHELL_INIT)
        } else if shell@ == "pwsh"@ {
            r == Ok::<&'static str, EzError>(PWSH_SHELL_INIT)
        } else {
            r matches Err(EzError::Config(m)) && m@ == "Unsupported shell: "@ + shell@
                + ". Supported: bash, zsh, fish, pwsh"@
        },
{
    if crate::text::str_eq(shell, "bash") || crate::text::str_eq(shell, "zsh") {
        Ok(POSIX_SHELL_INIT)
    } else if crate::text::str_eq(shell, "fish") {
        Ok(FISH_SHELL_INIT)
    } else if crate::text::str_eq(shell, "pwsh") {
        Ok(PWSH_SHELL_INIT)
    } else {
        Err(
            EzError::Config(
                crate::text::concat3("Unsupported shell: ", shell, ". Supported: bash, zsh, fish, pwsh"),
            ),
        )
    }
}

} // verus!
