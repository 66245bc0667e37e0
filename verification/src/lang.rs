//! UI strings. Japanese when the OS UI language is Japanese, English otherwise.

use vstd::prelude::*;

verus! {

#[derive(Clone, Copy, Debug)]
pub struct Strings {
    pub enabled: &'static str,
    pub profile: &'static str,
    pub sysfont: &'static str,
    pub sysfont_default: &'static str,
    pub exit: &'static str,
    pub tip_on: &'static str,
    pub tip_off: &'static str,
    pub err_no_dll: &'static str,
    pub err_hook: &'static str,
    pub err_already: &'static str,
    pub err_rva: &'static str,
    pub err_stale: &'static str,
    pub reload: &'static str,
    pub version: &'static str,
    pub restart: &'static str,
    pub custom: &'static str,
    pub custom_edit: &'static str,
    pub custom_title: &'static str,
    pub custom_hinting: &'static str,
    pub custom_aa: &'static str,
    pub custom_lcd_filter: &'static str,
    pub custom_gamma_mode: &'static str,
    pub custom_gamma: &'static str,
    pub custom_contrast: &'static str,
    pub custom_weight: &'static str,
    pub custom_embolden: &'static str,
    pub custom_hint_native: &'static str,
    pub custom_hint_none: &'static str,
    pub custom_hint_auto: &'static str,
    pub custom_aa_grey: &'static str,
    pub custom_filter_none: &'static str,
    pub custom_filter_default: &'static str,
    pub custom_filter_light: &'static str,
    pub custom_filter_legacy: &'static str,
    pub custom_gm_power: &'static str,
    pub custom_gm_avg: &'static str,
    pub custom_gm_linear: &'static str,
    pub custom_font: &'static str,
    pub custom_font_pick: &'static str,
    pub custom_copy: &'static str,
    pub custom_apply: &'static str,
    pub custom_close: &'static str,
    pub custom_sample: &'static str,
    pub custom_err_appdata: &'static str,
    pub custom_err_select: &'static str,
}

pub open spec fn english() -> Strings {
    Strings {
        enabled: "Enabled",
        profile: "Profile",
        sysfont: "System font",
        sysfont_default: "Default (restore)",
        exit: "Exit",
        tip_on: "Font-tuner - on",
        tip_off: "Font-tuner - off",
        err_no_dll: "RenderCore64.dll not found. Put font-tuner.exe in the Font-tuner folder.",
        err_hook: "Failed to install the hook.",
        err_already: "Font-tuner is already running.",
        err_rva: "RenderCore64.dll does not have its hook procedure where it belongs. The hook was not installed.",
        err_stale: "These programs still hold an older RenderCore64.dll. Sign out and in again (or restart Windows), then turn Font-tuner on:",
        reload: "Reload the profile",
        version: "Version",
        restart: "Restart Font-tuner",
        custom: "Custom",
        custom_edit: "Adjust custom...",
        custom_title: "Font-tuner - custom profile",
        custom_hinting: "Hinting",
        custom_aa: "Anti-aliasing",
        custom_lcd_filter: "LCD filter",
        custom_gamma_mode: "Gamma mode",
        custom_gamma: "Gamma",
        custom_contrast: "Contrast",
        custom_weight: "Weight",
        custom_embolden: "Boldness",
        custom_hint_native: "From the font",
        custom_hint_none: "None",
        custom_hint_auto: "Autohint",
        custom_aa_grey: "Greyscale",
        custom_filter_none: "None",
        custom_filter_default: "Default",
        custom_filter_light: "Light",
        custom_filter_legacy: "Legacy",
        custom_gm_power: "Power",
        custom_gm_avg: "Average",
        custom_gm_linear: "Linear",
        custom_font: "Preview font",
        custom_font_pick: "Font...",
        custom_copy: "Copy the current profile",
        custom_apply: "Apply",
        custom_close: "Close",
        custom_sample: "The quick brown fox 0123",
        custom_err_appdata: "APPDATA is not set.",
        custom_err_select: "could not be written",
    }
}

pub open spec fn japanese() -> Strings {
    Strings {
        enabled: "有効",
        profile: "プロファイル",
        sysfont: "システムフォント",
        sysfont_default: "既定に戻す",
        exit: "終了",
        tip_on: "Font-tuner - 有効",
        tip_off: "Font-tuner - 無効",
        err_no_dll: "RenderCore64.dll が見つからない。font-tuner.exe を Font-tuner のフォルダに置く。",
        err_hook: "フックを張れなかった。",
        err_already: "Font-tuner はすでに起動している。",
        err_rva: "RenderCore64.dll のフックプロシージャの位置が違う。フックは張らなかった。",
        err_stale: "次のプログラムが古い RenderCore64.dll を保持している。サインアウトして入り直す (または再起動する) まで有効にできない:",
        reload: "プロファイルを再読み込み",
        version: "バージョン",
        restart: "Font-tuner を再起動",
        custom: "カスタム",
        custom_edit: "カスタムを調整...",
        custom_title: "Font-tuner - カスタムプロファイル",
        custom_hinting: "ヒンティング",
        custom_aa: "アンチエイリアス",
        custom_lcd_filter: "LCD フィルタ",
        custom_gamma_mode: "ガンマの種類",
        custom_gamma: "ガンマ",
        custom_contrast: "コントラスト",
        custom_weight: "ウェイト",
        custom_embolden: "太さ",
        custom_hint_native: "フォント内蔵",
        custom_hint_none: "なし",
        custom_hint_auto: "オートヒント",
        custom_aa_grey: "グレースケール",
        custom_filter_none: "なし",
        custom_filter_default: "標準",
        custom_filter_light: "ライト",
        custom_filter_legacy: "レガシー",
        custom_gm_power: "べき乗",
        custom_gm_avg: "平均",
        custom_gm_linear: "線形",
        custom_font: "プレビューのフォント",
        custom_font_pick: "フォント...",
        custom_copy: "現在のプロファイルから複製",
        custom_apply: "適用",
        custom_close: "閉じる",
        custom_sample: "あいう 漢字 The quick brown fox",
        custom_err_appdata: "APPDATA が設定されていない。",
        custom_err_select: "書き込めなかった",
    }
}

/// The primary language of a language id is in its low 10 bits.
pub open spec fn primary_language(id: u16) -> int {
    id as int % 0x400
}

/// The primary language id of Japanese.
pub const JAPANESE: u16 = 0x11;

/// The strings for the UI language `id`.
pub fn current(id: u16) -> (r: Strings)
    ensures
        r == (if primary_language(id) == JAPANESE {
            japanese()
        } else {
            english()
        }),
{
    if id % 0x400 == JAPANESE {
        Strings {
            enabled: "有効",
            profile: "プロファイル",
            sysfont: "システムフォント",
            sysfont_default: "既定に戻す",
            exit: "終了",
            tip_on: "Font-tuner - 有効",
            tip_off: "Font-tuner - 無効",
            err_no_dll: "RenderCore64.dll が見つからない。font-tuner.exe を Font-tuner のフォルダに置く。",
            err_hook: "フックを張れなかった。",
            err_already: "Font-tuner はすでに起動している。",
            err_rva: "RenderCore64.dll のフックプロシージャの位置が違う。フックは張らなかった。",
            err_stale: "次のプログラムが古い RenderCore64.dll を保持している。サインアウトして入り直す (または再起動する) まで有効にできない:",
            reload: "プロファイルを再読み込み",
            version: "バージョン",
            restart: "Font-tuner を再起動",
            custom: "カスタム",
            custom_edit: "カスタムを調整...",
            custom_title: "Font-tuner - カスタムプロファイル",
            custom_hinting: "ヒンティング",
            custom_aa: "アンチエイリアス",
            custom_lcd_filter: "LCD フィルタ",
            custom_gamma_mode: "ガンマの種類",
            custom_gamma: "ガンマ",
            custom_contrast: "コントラスト",
            custom_weight: "ウェイト",
            custom_embolden: "太さ",
            custom_hint_native: "フォント内蔵",
            custom_hint_none: "なし",
            custom_hint_auto: "オートヒント",
            custom_aa_grey: "グレースケール",
            custom_filter_none: "なし",
            custom_filter_default: "標準",
            custom_filter_light: "ライト",
            custom_filter_legacy: "レガシー",
            custom_gm_power: "べき乗",
            custom_gm_avg: "平均",
            custom_gm_linear: "線形",
            custom_font: "プレビューのフォント",
            custom_font_pick: "フォント...",
            custom_copy: "現在のプロファイルから複製",
            custom_apply: "適用",
            custom_close: "閉じる",
            custom_sample: "あいう 漢字 The quick brown fox",
            custom_err_appdata: "APPDATA が設定されていない。",
            custom_err_select: "書き込めなかった",
        }
    } else {
        Strings {
            enabled: "Enabled",
            profile: "Profile",
            sysfont: "System font",
            sysfont_default: "Default (restore)",
            exit: "Exit",
            tip_on: "Font-tuner - on",
            tip_off: "Font-tuner - off",
            err_no_dll: "RenderCore64.dll not found. Put font-tuner.exe in the Font-tuner folder.",
            err_hook: "Failed to install the hook.",
            err_already: "Font-tuner is already running.",
            err_rva: "RenderCore64.dll does not have its hook procedure where it belongs. The hook was not installed.",
            err_stale: "These programs still hold an older RenderCore64.dll. Sign out and in again (or restart Windows), then turn Font-tuner on:",
            reload: "Reload the profile",
            version: "Version",
            restart: "Restart Font-tuner",
            custom: "Custom",
            custom_edit: "Adjust custom...",
            custom_title: "Font-tuner - custom profile",
            custom_hinting: "Hinting",
            custom_aa: "Anti-aliasing",
            custom_lcd_filter: "LCD filter",
            custom_gamma_mode: "Gamma mode",
            custom_gamma: "Gamma",
            custom_contrast: "Contrast",
            custom_weight: "Weight",
            custom_embolden: "Boldness",
            custom_hint_native: "From the font",
            custom_hint_none: "None",
            custom_hint_auto: "Autohint",
            custom_aa_grey: "Greyscale",
            custom_filter_none: "None",
            custom_filter_default: "Default",
            custom_filter_light: "Light",
            custom_filter_legacy: "Legacy",
            custom_gm_power: "Power",
            custom_gm_avg: "Average",
            custom_gm_linear: "Linear",
            custom_font: "Preview font",
            custom_font_pick: "Font...",
            custom_copy: "Copy the current profile",
            custom_apply: "Apply",
            custom_close: "Close",
            custom_sample: "The quick brown fox 0123",
            custom_err_appdata: "APPDATA is not set.",
            custom_err_select: "could not be written",
        }
    }
}

// ---- laws ----

/// Japanese is the primary language `11` whatever the rest of the id says.
pub proof fn the_low_ten_bits_are_the_language(primary: int, rest: int, id: u16)
    requires
        0 <= primary < 1024,
        id == 1024 * rest + primary,
    ensures
        primary_language(id) == primary,
        JAPANESE == 0x11,
{
}

} // verus!
