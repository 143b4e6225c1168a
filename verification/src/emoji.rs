//! Emoji shortcodes: the vocabulary, edit distance, and the correction of names.

use vstd::prelude::*;
use crate::pattern::{
    all_captures, captures_all, group, group_chars, group_lists, group_of, group_text, span_chars,
    same_texts, span_text, splice, splice_of_same_texts, spliced, whole_spans, whole_spans_of,
    Span,
};
use crate::text::{
    lowercase, lowered, push_all, replace_char, replaced_char, same, to_chars, to_string, trim_char,
    trimmed_char, views,
};

verus! {

/// The shortcode names that are known, in lower case and with underscores.
pub const VALID_EMOJI_NAMES: [&'static str; 871] = [
    "+1", "100", "1234", "8ball", "_1", "a", "ab", "abc", "abcd", "accept", "aerial_tramway",
    "airplane", "alarm_clock", "alien", "ambulance", "anchor", "angel", "anger", "angry",
    "anguished", "ant", "apple", "aquarius", "aries", "arrow_backward", "arrow_double_down",
    "arrow_double_up", "arrow_down", "arrow_down_small", "arrow_forward", "arrow_heading_down",
    "arrow_heading_up", "arrow_left", "arrow_lower_left", "arrow_lower_right", "arrow_right",
    "arrow_right_hook", "arrow_up", "arrow_up_down", "arrow_up_small", "arrow_upper_left",
    "arrow_upper_right", "arrows_clockwise", "arrows_counterclockwise", "art",
    "articulated_lorry", "astonished", "atm", "b", "baby", "baby_bottle", "baby_chick",
    "baby_symbol", "back", "baggage_claim", "balloon", "ballot_box_with_check", "bamboo",
    "banana", "bangbang", "bank", "bar_chart", "barber", "baseball", "basketball", "bath",
    "bathtub", "battery", "bear", "bee", "beer", "beers", "beetle", "beginner", "bell", "bento",
    "bicyclist", "bike", "bikini", "bird", "birthday", "black_circle", "black_joker",
    "black_large_square", "black_medium_small_square", "black_medium_square", "black_nib",
    "black_small_square", "black_square_button", "blossom", "blowfish", "blue_book", "blue_car",
    "blue_heart", "blush", "boar", "boat", "bomb", "book", "bookmark", "bookmark_tabs", "books",
    "boom", "boot", "bouquet", "bow", "bowling", "boy", "bread", "bride_with_veil",
    "bridge_at_night", "briefcase", "broken_heart", "bug", "bulb", "bullettrain_front",
    "bullettrain_side", "bus", "busstop", "bust_in_silhouette", "busts_in_silhouette", "cactus",
    "cake", "calendar", "calling", "camel", "camera", "cancer", "candy", "capital_abcd",
    "capricorn", "car", "card_index", "carousel_horse", "cat", "cat2", "cd", "chart",
    "chart_with_downwards_trend", "chart_with_upwards_trend", "checkered_flag", "cherries",
    "cherry_blossom", "chestnut", "chicken", "children_crossing", "chocolate_bar",
    "christmas_tree", "church", "cinema", "circus_tent", "city_sunrise", "city_sunset", "cl",
    "clap", "clapper", "clipboard", "clock1", "clock10", "clock11", "clock12", "clock130",
    "clock2", "clock230", "clock3", "clock330", "clock4", "clock430", "clock5", "clock530",
    "clock6", "clock630", "clock7", "clock730", "clock8", "clock830", "clock9", "clock930",
    "closed_book", "closed_lock_with_key", "closed_umbrella", "cloud", "clubs", "cn",
    "cocktail", "coffee", "cold_sweat", "collision", "computer", "confetti_ball", "confounded",
    "confused", "congratulations", "construction", "construction_worker", "convenience_store",
    "cookie", "cool", "cop", "copyright", "corn", "couple", "couple_with_heart", "couplekiss",
    "cow", "cow2", "credit_card", "crescent_moon", "crossed_flags", "crown", "cry",
    "crying_cat_face", "crystal_ball", "cupid", "curly_loop", "currency_exchange", "curry",
    "custard", "customs", "dancer", "dancers", "dango", "dart", "dash", "date", "de",
    "deciduous_tree", "department_store", "diamond_shape_with_a_dot_inside", "diamonds",
    "disappointed", "disappointed_relieved", "dizzy", "dizzy_face", "do_not_litter", "dog",
    "dog2", "dollar", "dolls", "dolphin", "donut", "door", "doughnut", "dragon", "dragon_face",
    "dress", "dromedary_camel", "droplet", "dvd", "ear", "ear_of_rice", "earth_africa",
    "earth_americas", "earth_asia", "egg", "eggplant", "eight", "eight_pointed_black_star",
    "eight_spoked_asterisk", "electric_plug", "elephant", "email", "end", "envelope",
    "envelope_with_arrow", "es", "euro", "european_castle", "european_post_office",
    "evergreen_tree", "exclamation", "expressionless", "eyeglasses", "eyes", "facepunch",
    "factory", "fallen_leaf", "family", "fast_forward", "fax", "fearful", "feelsgood", "feet",
    "ferris_wheel", "file_folder", "finnadie", "fire", "fireworks", "first_quarter_moon",
    "first_quarter_moon_with_face", "fish", "fish_cake", "fishing_pole_and_fish", "fist",
    "five", "flags", "flashlight", "flipper", "floppy_disk", "flower_playing_cards", "flushed",
    "foggy", "football", "footprints", "fork_and_knife", "fountain", "four", "four_leaf_clover",
    "fr", "free", "fried_shrimp", "fries", "frog", "frowning", "fu", "fuelpump", "full_moon",
    "full_moon_with_face", "game_die", "gb", "gem", "gemini", "ghost", "gift", "gift_heart",
    "girl", "globe_with_meridians", "goat", "goberserk", "godmode", "golf", "grapes",
    "green_apple", "green_book", "green_heart", "grey_exclamation", "grey_question",
    "grimacing", "grin", "grinning", "guardsman", "guitar", "gun", "haircut", "hamburger",
    "hammer", "hamster", "hand", "handbag", "hankey", "hatched_chick", "hatching_chick",
    "headphones", "hear_no_evil", "heart", "heart_decoration", "heart_eyes", "heart_eyes_cat",
    "heartbeat", "heartpulse", "hearts", "heavy_check_mark", "heavy_division_sign",
    "heavy_dollar_sign", "heavy_exclamation_mark", "heavy_minus_sign", "heavy_multiplication_x",
    "heavy_plus_sign", "helicopter", "herb", "hibiscus", "high_brightness", "high_heel",
    "hocho", "honey_pot", "honeybee", "horse", "horse_racing", "hospital", "hotel",
    "hotsprings", "hourglass", "hourglass_flowing_sand", "house", "house_with_garden", "hushed",
    "ice_cream", "icecream", "id", "ideograph_advantage", "imp", "inbox_tray",
    "incoming_envelope", "information_desk_person", "information_source", "innocent",
    "interrobang", "iphone", "it", "izakaya_lantern", "jack_o_lantern", "japan",
    "japanese_castle", "japanese_goblin", "japanese_ogre", "jeans", "joy", "joy_cat", "jp",
    "key", "keycap_ten", "kimono", "kiss", "kissing", "kissing_cat", "kissing_closed_eyes",
    "kissing_heart", "kissing_smiling_eyes", "koala", "koko", "kr", "large_blue_circle",
    "large_blue_diamond", "large_orange_diamond", "last_quarter_moon",
    "last_quarter_moon_with_face", "laughing", "leaves", "ledger", "left_luggage",
    "left_right_arrow", "leftwards_arrow_with_hook", "lemon", "leo", "leopard", "libra",
    "light_rail", "link", "lips", "lipstick", "lock", "lock_with_ink_pen", "lollipop", "loop",
    "loudspeaker", "love_hotel", "love_letter", "low_brightness", "m", "mag", "mag_right",
    "mahjong", "mailbox", "mailbox_closed", "mailbox_with_mail", "mailbox_with_no_mail", "man",
    "man_with_gua_pi_mao", "man_with_turban", "mans_shoe", "maple_leaf", "mask", "massage",
    "meat_on_bone", "mega", "melon", "memo", "mens", "metal", "metro", "microphone",
    "microscope", "milky_way", "minibus", "minidisc", "mobile_phone_off", "money_with_wings",
    "moneybag", "monkey", "monkey_face", "monorail", "moon", "mortar_board", "mount_fuji",
    "mountain_bicyclist", "mountain_cableway", "mountain_railway", "mouse", "mouse2",
    "movie_camera", "moyai", "muscle", "mushroom", "musical_keyboard", "musical_note",
    "musical_score", "mute", "nail_care", "name_badge", "neckbeard", "necktie",
    "negative_squared_cross_mark", "neutral_face", "new", "new_moon", "new_moon_with_face",
    "newspaper", "ng", "nine", "no_bell", "no_bicycles", "no_entry", "no_entry_sign", "no_good",
    "no_mobile_phones", "no_mouth", "no_pedestrians", "no_smoking", "non_potable_water", "nose",
    "notebook", "notebook_with_decorative_cover", "notes", "nut_and_bolt", "o", "o2", "ocean",
    "octocat", "octopus", "oden", "office", "ok", "ok_hand", "ok_woman", "older_man",
    "older_woman", "on", "oncoming_automobile", "oncoming_bus", "oncoming_police_car",
    "oncoming_taxi", "one", "open_book", "open_file_folder", "open_hands", "open_mouth",
    "ophiuchus", "orange_book", "outbox_tray", "ox", "package", "page_facing_up",
    "page_with_curl", "pager", "palm_tree", "panda_face", "paperclip", "parking",
    "part_alternation_mark", "partly_sunny", "passport_control", "paw_prints", "peach", "pear",
    "pencil", "pencil2", "penguin", "pensive", "performing_arts", "persevere",
    "person_frowning", "person_with_blond_hair", "person_with_pouting_face", "phone", "pig",
    "pig2", "pig_nose", "pill", "pineapple", "pisces", "pizza", "point_down", "point_left",
    "point_right", "point_up", "point_up_2", "police_car", "poodle", "poop", "post_office",
    "postal_horn", "postbox", "potable_water", "pouch", "poultry_leg", "pound", "pray",
    "princess", "punch", "purple_heart", "purse", "pushpin", "put_litter_in_its_place",
    "question", "rabbit", "rabbit2", "racehorse", "radio", "radio_button", "rage", "rage1",
    "rage2", "rage3", "rage4", "railway_car", "rainbow", "raised_hand", "raised_hands",
    "raising_hand", "ram", "ramen", "rat", "recycle", "red_car", "red_circle", "registered",
    "relaxed", "relieved", "repeat", "repeat_one", "restroom", "revolving_hearts", "rewind",
    "ribbon", "rice", "rice_ball", "rice_cracker", "rice_scene", "ring", "rocket",
    "roller_coaster", "rooster", "rose", "rotating_light", "round_pushpin", "rowboat", "ru",
    "rugby_football", "runner", "running", "running_shirt_with_sash", "sa", "sagittarius",
    "sailboat", "sake", "sandal", "santa", "satellite", "satisfied", "saxophone", "school",
    "school_satchel", "scissors", "scorpius", "scream", "scream_cat", "scroll", "seat",
    "secret", "see_no_evil", "seedling", "seven", "shaved_ice", "sheep", "shell", "ship",
    "shipit", "shirt", "shit", "shoe", "shower", "signal_strength", "six", "six_pointed_star",
    "ski", "skull", "sleeping", "sleepy", "slot_machine", "small_blue_diamond",
    "small_orange_diamond", "small_red_triangle", "small_red_triangle_down", "smile",
    "smile_cat", "smiley", "smiley_cat", "smirk", "smirk_cat", "smoking", "snail", "snake",
    "snowboarder", "snowflake", "snowman", "sob", "soccer", "soon", "sos", "sound",
    "space_invader", "spades", "spaghetti", "sparkle", "sparkler", "sparkles",
    "sparkling_heart", "speak_no_evil", "speaker", "speech_balloon", "speedboat", "squirrel",
    "star", "star2", "stars", "station", "statue_of_liberty", "steam_locomotive", "stew",
    "straight_ruler", "strawberry", "stuck_out_tongue", "stuck_out_tongue_closed_eyes",
    "stuck_out_tongue_winking_eye", "sun_with_face", "sunflower", "sunglasses", "sunny",
    "sunrise", "sunrise_over_mountains", "surfer", "sushi", "suspect", "suspension_railway",
    "sweat", "sweat_drops", "sweat_smile", "sweet_potato", "swimmer", "symbols", "syringe",
    "tada", "tanabata_tree", "tangerine", "taurus", "taxi", "tea", "telephone",
    "telephone_receiver", "telescope", "tennis", "tent", "thought_balloon", "three",
    "thumbsdown", "thumbsup", "ticket", "tiger", "tiger2", "tired_face", "tm", "toilet",
    "tokyo_tower", "tomato", "tongue", "top", "tophat", "tractor", "traffic_light", "train",
    "train2", "tram", "triangular_flag_on_post", "triangular_ruler", "trident", "triumph",
    "trolleybus", "trophy", "tropical_drink", "tropical_fish", "truck", "trumpet", "tshirt",
    "tulip", "turtle", "tv", "twisted_rightwards_arrows", "two", "two_hearts",
    "two_men_holding_hands", "two_women_holding_hands", "u5272", "u5408", "u55b6", "u6307",
    "u6708", "u6709", "u6e80", "u7121", "u7533", "u7981", "u7a7a", "uk", "umbrella", "unamused",
    "underage", "unlock", "up", "us", "v", "vertical_traffic_light", "vhs", "vibration_mode",
    "video_camera", "video_game", "violin", "virgo", "volcano", "vs", "walking",
    "waning_crescent_moon", "waning_gibbous_moon", "warning", "watch", "water_buffalo",
    "watermelon", "wave", "wavy_dash", "waxing_crescent_moon", "waxing_gibbous_moon", "wc",
    "weary", "wedding", "whale", "whale2", "wheelchair", "white_check_mark", "white_circle",
    "white_flower", "white_large_square", "white_medium_small_square", "white_medium_square",
    "white_small_square", "white_square_button", "wind_chime", "wine_glass", "wink", "wolf",
    "woman", "womans_clothes", "womans_hat", "womens", "worried", "wrench", "x", "yellow_heart",
    "yen", "yum", "zap", "zero", "zzz",
];

/// How many names the vocabulary holds.
pub const VOCABULARY_SIZE: usize = 871;

/// An emoji shortcode: a name of letters, digits, `_`, `+` and `-` between colons.
pub const SHORTCODE: &'static str = r":([a-zA-Z0-9_+-]+):";

/// How far apart an unknown name and the known name that replaces it may be.
pub const MAX_DISTANCE: usize = 4;

/// The known shortcode names.
pub open spec fn vocabulary() -> Seq<Seq<char>> {
    Seq::new(VOCABULARY_SIZE as nat, |i: int| VALID_EMOJI_NAMES[i]@)
}

/// The known shortcode names.
pub fn valid_emoji_names_set() -> (r: Vec<Vec<char>>)
    ensures
        views(r@) == vocabulary(),
{
    let mut r: Vec<Vec<char>> = Vec::new();
    let mut i: usize = 0;
    while i < VOCABULARY_SIZE
        invariant
            i <= VOCABULARY_SIZE,
            r.len() == i,
            forall|j: int| 0 <= j < i ==> (#[trigger] r@[j])@ == VALID_EMOJI_NAMES[j]@,
        decreases VOCABULARY_SIZE - i,
    {
        r.push(to_chars(VALID_EMOJI_NAMES[i]));
        i += 1;
    }
    assert(views(r@) =~= vocabulary());
    r
}

/// The smaller of two numbers.
pub open spec fn least(a: nat, b: nat) -> nat {
    if a <= b {
        a
    } else {
        b
    }
}

/// The edit distance between `a` and `b`: the least number of insertions,
/// deletions and substitutions of single characters that turns one into the other.
pub open spec fn edit_distance(a: Seq<char>, b: Seq<char>) -> nat
    decreases a.len() + b.len(),
{
    if a.len() == 0 {
        b.len()
    } else if b.len() == 0 {
        a.len()
    } else {
        least(
            least(edit_distance(a.drop_last(), b) + 1, edit_distance(a, b.drop_last()) + 1),
            edit_distance(a.drop_last(), b.drop_last()) + if a.last() == b.last() {
                0nat
            } else {
                1nat
            },
        )
    }
}

/// The edit distance is at most the length of the longer text.
pub proof fn edit_distance_bound(a: Seq<char>, b: Seq<char>)
    ensures
        edit_distance(a, b) <= a.len() || edit_distance(a, b) <= b.len(),
    decreases a.len() + b.len(),
{
    if a.len() > 0 && b.len() > 0 {
        edit_distance_bound(a.drop_last(), b.drop_last());
    }
}

/// The edit distance is zero exactly between equal texts.
pub proof fn edit_distance_zero(a: Seq<char>, b: Seq<char>)
    ensures
        edit_distance(a, b) == 0 <==> a == b,
    decreases a.len() + b.len(),
{
    if a.len() == 0 || b.len() == 0 {
        if a.len() == 0 && b.len() == 0 {
            assert(a =~= b);
        }
    } else {
        edit_distance_zero(a.drop_last(), b.drop_last());
        if a.drop_last() == b.drop_last() && a.last() == b.last() {
            assert(a =~= a.drop_last().push(a.last()));
            assert(b =~= b.drop_last().push(b.last()));
        }
    }
}

/// The edit distance between `a` and `b`.
pub fn levenshtein_distance_chars(a: &Vec<char>, b: &Vec<char>) -> (r: usize)
    ensures
        r == edit_distance(a@, b@),
{
    let n = b.len();
    let mut prev: Vec<usize> = Vec::new();
    let mut j: usize = 0;
    while j < n
        invariant
            j <= n,
            n == b.len(),
            prev.len() == j,
            forall|k: int| 0 <= k < j ==> #[trigger] prev@[k] == k,
        decreases n - j,
    {
        prev.push(j);
        j += 1;
    }
    prev.push(n);
    assert(a@.take(0).len() == 0);
    let mut i: usize = 0;
    while i < a.len()
        invariant
            i <= a.len(),
            n == b.len(),
            prev.len() == n + 1,
            forall|k: int|
                0 <= k <= n ==> #[trigger] prev@[k] == edit_distance(a@.take(i as int), b@.take(k)),
        decreases a.len() - i,
    {
        let ghost ai = a@.take(i as int);
        let ghost an = a@.take(i + 1);
        assert(an.drop_last() =~= ai);
        assert(an.last() == a@[i as int]);
        let mut cur: Vec<usize> = Vec::new();
        cur.push(i + 1);
        assert(b@.take(0).len() == 0);
        let mut j: usize = 0;
        while j < n
            invariant
                j <= n,
                i < a.len(),
                n == b.len(),
                prev.len() == n + 1,
                cur.len() == j + 1,
                ai == a@.take(i as int),
                an == a@.take(i + 1),
                an.len() == i + 1,
                an.drop_last() == ai,
                an.last() == a@[i as int],
                forall|k: int|
                    0 <= k <= n ==> #[trigger] prev@[k] == edit_distance(ai, b@.take(k)),
                forall|k: int| 0 <= k <= j ==> #[trigger] cur@[k] == edit_distance(an, b@.take(k)),
            decreases n - j,
        {
            let ghost bj = b@.take(j as int);
            let ghost bn = b@.take(j + 1);
            assert(bn.drop_last() =~= bj);
            assert(bn.last() == b@[j as int]);
            proof {
                edit_distance_bound(ai, bj);
            }
            let cost: usize = if a[i] == b[j] { 0 } else { 1 };
            let sub = prev[j] + cost;
            let m = if prev[j + 1] < cur[j] { prev[j + 1] } else { cur[j] };
            let v = if m < sub { m + 1 } else { sub };
            assert(prev@[j + 1] == edit_distance(ai, bn));
            assert(cur@[j as int] == edit_distance(an, bj));
            assert(v == edit_distance(an, bn));
            cur.push(v);
            j += 1;
        }
        prev = cur;
        i += 1;
    }
    assert(a@.take(a.len() as int) =~= a@);
    assert(b@.take(n as int) =~= b@);
    prev[n]
}

/// The edit distance between `s1` and `s2`, counted in characters.
pub fn levenshtein_distance(s1: &str, s2: &str) -> (r: usize)
    ensures
        r == edit_distance(s1@, s2@),
{
    levenshtein_distance_chars(&to_chars(s1), &to_chars(s2))
}

/// The name of a shortcode in the form the vocabulary uses: without colons round
/// it, in lower case, with underscores for hyphens.
pub open spec fn shortcode_name(name: Seq<char>) -> Seq<char> {
    replace_char(lowercase(trim_char(name, ':')), '-', '_')
}

/// The name of a shortcode in the form the vocabulary uses.
pub fn normalize_emoji_name_chars(name: &Vec<char>) -> (r: Vec<char>)
    ensures
        r@ == shortcode_name(name@),
{
    let bare = trimmed_char(name, ':');
    let lower = lowered(&bare);
    replaced_char(&lower, '-', '_')
}

/// The name of a shortcode in the form the vocabulary uses.
pub fn normalize_emoji_name(name: &str) -> (r: String)
    ensures
        r@ == shortcode_name(name@),
{
    to_string(&normalize_emoji_name_chars(&to_chars(name)))
}

/// Whether `x` is a better replacement for `target` than `y`: nearer, or as near
/// and shorter.
pub open spec fn closer(target: Seq<char>, x: Seq<char>, y: Seq<char>) -> bool {
    edit_distance(target, x) < edit_distance(target, y) || (edit_distance(target, x)
        == edit_distance(target, y) && x.len() < y.len())
}

/// Whether `names[i]` is the replacement for `target` among the first `n` names:
/// within `max` of it, with no name better and every earlier name worse.
pub open spec fn is_best(
    target: Seq<char>,
    names: Seq<Seq<char>>,
    max: nat,
    n: int,
    i: int,
) -> bool {
    &&& 0 <= i < n <= names.len()
    &&& edit_distance(target, names[i]) <= max
    &&& forall|j: int| 0 <= j < n ==> !closer(target, #[trigger] names[j], names[i])
    &&& forall|j: int| 0 <= j < i ==> closer(target, names[i], #[trigger] names[j])
}

/// Whether none of the first `n` names is within `max` of `target`.
pub open spec fn none_near(target: Seq<char>, names: Seq<Seq<char>>, max: nat, n: int) -> bool {
    forall|j: int| 0 <= j < n ==> edit_distance(target, #[trigger] names[j]) > max
}

/// The index of the replacement for `target` among the first `n` names, if any.
pub open spec fn best_index(target: Seq<char>, names: Seq<Seq<char>>, max: nat, n: int) -> Option<
    int,
>
    decreases n,
{
    if n <= 0 || n > names.len() {
        None
    } else {
        let before = best_index(target, names, max, n - 1);
        if edit_distance(target, names[n - 1]) > max {
            before
        } else {
            match before {
                Some(p) => if closer(target, names[n - 1], names[p]) {
                    Some(n - 1)
                } else {
                    before
                },
                None => Some(n - 1),
            }
        }
    }
}

/// The index of the known name that replaces `target`: the one at the least edit
/// distance, if that is at most `max`; of several, the shortest; of several of
/// those, the first. `None` where every name is further away than `max`.
pub open spec fn best_match(target: Seq<char>, names: Seq<Seq<char>>, max: nat) -> Option<int> {
    best_index(target, names, max, names.len() as int)
}

/// `best_index` finds the replacement where there is one, and only there.
pub proof fn best_index_is_best(target: Seq<char>, names: Seq<Seq<char>>, max: nat, n: int)
    requires
        0 <= n <= names.len(),
    ensures
        match best_index(target, names, max, n) {
            Some(i) => is_best(target, names, max, n, i),
            None => none_near(target, names, max, n),
        },
    decreases n,
{
    if n > 0 {
        best_index_is_best(target, names, max, n - 1);
    }
}

/// A name whose least distance to the known names is more than `max` has no
/// replacement, and a name with no replacement is that far from all of them.
pub proof fn best_match_none(target: Seq<char>, names: Seq<Seq<char>>, max: nat)
    ensures
        best_match(target, names, max) is None <==> none_near(
            target,
            names,
            max,
            names.len() as int,
        ),
{
    best_index_is_best(target, names, max, names.len() as int);
}

/// A known name is its own replacement: its first occurrence is found.
pub proof fn best_match_known(target: Seq<char>, names: Seq<Seq<char>>, max: nat, i: int)
    requires
        0 <= i < names.len(),
        names[i] == target,
        forall|j: int| 0 <= j < i ==> names[j] != target,
    ensures
        best_match(target, names, max) == Some(i),
{
    let n = names.len() as int;
    best_index_is_best(target, names, max, n);
    edit_distance_zero(target, names[i]);
    assert(edit_distance(target, names[i]) == 0);
    match best_index(target, names, max, n) {
        Some(b) => {
            edit_distance_zero(target, names[b]);
            assert(!closer(target, names[i], names[b]));
            assert(names[b] == target);
            if b > i {
                assert(closer(target, names[b], names[i]));
            }
        },
        None => {
            assert(edit_distance(target, names[i]) > max);
        },
    }
}

/// The first index at which `names` holds `target`.
pub fn index_of(names: &Vec<Vec<char>>, target: &Vec<char>) -> (r: Option<usize>)
    ensures
        match r {
            Some(i) => i < names.len() && names@[i as int]@ == target@ && forall|j: int|
                0 <= j < i ==> (#[trigger] names@[j])@ != target@,
            None => forall|j: int| 0 <= j < names.len() ==> (#[trigger] names@[j])@ != target@,
        },
{
    let mut i: usize = 0;
    while i < names.len()
        invariant
            i <= names.len(),
            forall|j: int| 0 <= j < i ==> (#[trigger] names@[j])@ != target@,
        decreases names.len() - i,
    {
        if same(&names[i], target) {
            return Some(i);
        }
        i += 1;
    }
    None
}

/// The index of the known name that replaces `target`.
pub fn best_match_index(target: &Vec<char>, max_distance: usize, names: &Vec<Vec<char>>) -> (r:
    Option<usize>)
    ensures
        match r {
            Some(i) => best_match(target@, views(names@), max_distance as nat) == Some(i as int),
            None => best_match(target@, views(names@), max_distance as nat) is None,
        },
{
    let ghost ns = views(names@);
    match index_of(names, target) {
        Some(i) => {
            proof {
                assert forall|j: int| 0 <= j < i implies ns[j] != target@ by {
                    assert(ns[j] == names@[j]@);
                }
                best_match_known(target@, ns, max_distance as nat, i as int);
            }
            return Some(i);
        },
        None => {},
    }
    let mut best: Option<usize> = None;
    let mut best_distance: usize = 0;
    let mut k: usize = 0;
    while k < names.len()
        invariant
            k <= names.len(),
            ns == views(names@),
            match best {
                Some(i) => best_index(target@, ns, max_distance as nat, k as int) == Some(i as int)
                    && i < k && best_distance == edit_distance(target@, ns[i as int]),
                None => best_index(target@, ns, max_distance as nat, k as int) is None,
            },
        decreases names.len() - k,
    {
        let d = levenshtein_distance_chars(target, &names[k]);
        assert(ns[k as int] == names@[k as int]@);
        if d <= max_distance {
            match best {
                Some(i) => {
                    assert(ns[i as int] == names@[i as int]@);
                    if d < best_distance || (d == best_distance && names[k].len()
                        < names[i].len()) {
                        best = Some(k);
                        best_distance = d;
                    }
                },
                None => {
                    best = Some(k);
                    best_distance = d;
                },
            }
        }
        k += 1;
    }
    best
}

/// The known name that replaces `name`, if one is near enough.
pub fn find_best_emoji_match(name: &str, max_distance: usize, valid_set: &Vec<Vec<char>>) -> (r:
    Option<String>)
    ensures
        match best_match(shortcode_name(name@), views(valid_set@), max_distance as nat) {
            Some(i) => r is Some && 0 <= i < valid_set.len() && r->0@ == valid_set@[i]@,
            None => r is None,
        },
{
    let target = normalize_emoji_name_chars(&to_chars(name));
    match best_match_index(&target, max_distance, valid_set) {
        Some(i) => {
            proof {
                best_index_is_best(
                    target@,
                    views(valid_set@),
                    max_distance as nat,
                    valid_set.len() as int,
                );
            }
            Some(to_string(&valid_set[i]))
        },
        None => None,
    }
}

/// What one shortcode is rewritten to: the known name that replaces its name,
/// between colons; the shortcode as it stands where no known name is near enough.
pub open spec fn shortcode_corrected(
    text: Seq<char>,
    parts: Seq<Option<Span>>,
    names: Seq<Seq<char>>,
) -> Seq<char> {
    match best_match(shortcode_name(group_text(text, parts, 1)), names, MAX_DISTANCE as nat) {
        Some(i) => seq![':'] + names[i] + seq![':'],
        None => span_text(text, group(parts, 0)),
    }
}

/// `line` with each shortcode in `found` corrected against `names`.
pub open spec fn shortcodes_rewritten(
    line: Seq<char>,
    found: Seq<Seq<Option<Span>>>,
    names: Seq<Seq<char>>,
) -> Seq<char> {
    splice(
        line,
        whole_spans(found),
        found.map_values(|c: Seq<Option<Span>>| shortcode_corrected(line, c, names)),
    )
}

/// `line` with each of its shortcodes corrected against `names`.
pub open spec fn shortcodes_corrected(line: Seq<char>, names: Seq<Seq<char>>) -> Seq<char> {
    shortcodes_rewritten(line, all_captures(SHORTCODE@, line), names)
}

/// A shortcode whose name is further than the allowed distance from every known
/// name is left as it stands.
pub proof fn far_shortcode_stays(text: Seq<char>, parts: Seq<Option<Span>>, names: Seq<Seq<char>>)
    requires
        none_near(
            shortcode_name(group_text(text, parts, 1)),
            names,
            MAX_DISTANCE as nat,
            names.len() as int,
        ),
    ensures
        shortcode_corrected(text, parts, names) == span_text(text, group(parts, 0)),
{
    best_match_none(shortcode_name(group_text(text, parts, 1)), names, MAX_DISTANCE as nat);
}

/// Corrects each shortcode of `line` against `names`, given the shortcodes' parts.
pub fn rewrite_shortcodes(
    line: &Vec<char>,
    found: &Vec<Vec<Option<Span>>>,
    names: &Vec<Vec<char>>,
) -> (r: Vec<char>)
    ensures
        r@ == shortcodes_rewritten(line@, group_lists(found@), views(names@)),
{
    let mut reps: Vec<Vec<char>> = Vec::new();
    let mut i: usize = 0;
    while i < found.len()
        invariant
            i <= found.len(),
            reps.len() == i,
            forall|j: int|
                0 <= j < i ==> (#[trigger] reps@[j])@ == shortcode_corrected(
                    line@,
                    found@[j]@,
                    views(names@),
                ),
        decreases found.len() - i,
    {
        let name = group_chars(line, &found[i], 1);
        let target = normalize_emoji_name_chars(&name);
        let rep = match best_match_index(&target, MAX_DISTANCE, names) {
            Some(b) => {
                proof {
                    best_index_is_best(
                        target@,
                        views(names@),
                        MAX_DISTANCE as nat,
                        names.len() as int,
                    );
                }
                let mut rep: Vec<char> = Vec::new();
                rep.push(':');
                push_all(&mut rep, &names[b]);
                rep.push(':');
                assert(rep@ =~= seq![':'] + views(names@)[b as int] + seq![':']);
                rep
            },
            None => span_chars(line, group_of(&found[i], 0)),
        };
        reps.push(rep);
        i += 1;
    }
    assert(views(reps@) =~= group_lists(found@).map_values(
        |c: Seq<Option<Span>>| shortcode_corrected(line@, c, views(names@)),
    ));
    let spans = whole_spans_of(found);
    spliced(line, &spans, &reps)
}

/// Corrects each shortcode of `line` against `valid_set`.
pub fn normalize_emoji_names_chars(line: &Vec<char>, valid_set: &Vec<Vec<char>>) -> (r: Vec<char>)
    ensures
        r@ == shortcodes_corrected(line@, views(valid_set@)),
{
    let found = captures_all(SHORTCODE, line);
    rewrite_shortcodes(line, &found, valid_set)
}

/// Corrects each shortcode of `line` against `valid_set`.
pub fn normalize_emoji_names(line: &str, valid_set: &Vec<Vec<char>>) -> (r: String)
    ensures
        r@ == shortcodes_corrected(line@, views(valid_set@)),
{
    to_string(&normalize_emoji_names_chars(&to_chars(line), valid_set))
}

/// A line whose shortcodes are all further than the allowed distance from every
/// known name stays as it is.
pub proof fn far_shortcodes_leave_line(
    line: Seq<char>,
    found: Seq<Seq<Option<Span>>>,
    names: Seq<Seq<char>>,
)
    requires
        forall|k: int|
            0 <= k < found.len() ==> none_near(
                shortcode_name(group_text(line, #[trigger] found[k], 1)),
                names,
                MAX_DISTANCE as nat,
                names.len() as int,
            ),
    ensures
        shortcodes_rewritten(line, found, names) == line,
{
    let spans = whole_spans(found);
    let reps = found.map_values(|c: Seq<Option<Span>>| shortcode_corrected(line, c, names));
    assert(same_texts(line, spans, reps)) by {
        assert forall|k: int| 0 <= k < spans.len() && k < reps.len() implies #[trigger] reps[k]
            == span_text(line, spans[k]) by {
            far_shortcode_stays(line, found[k], names);
        }
    }
    splice_of_same_texts(line, spans, reps);
}

} // verus!
