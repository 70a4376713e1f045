use vstd::prelude::*;

verus! {

/// Number of rows in the romaji table.
pub const TABLE_LEN: usize = 216;

/// Row `i` of the romaji table: (romaji spelling, kana).
/// The rows are ordered by romaji spelling and no spelling occurs twice.
pub open spec fn spec_entry(i: int) -> (Seq<char>, Seq<char>) {
    if i == 0 { (seq!['-'], seq!['ー']) }
    else if i == 1 { (seq!['a'], seq!['あ']) }
    else if i == 2 { (seq!['b', 'a'], seq!['ば']) }
    else if i == 3 { (seq!['b', 'e'], seq!['べ']) }
    else if i == 4 { (seq!['b', 'i'], seq!['び']) }
    else if i == 5 { (seq!['b', 'o'], seq!['ぼ']) }
    else if i == 6 { (seq!['b', 'u'], seq!['ぶ']) }
    else if i == 7 { (seq!['b', 'y', 'a'], seq!['び', 'ゃ']) }
    else if i == 8 { (seq!['b', 'y', 'e'], seq!['び', 'ぇ']) }
    else if i == 9 { (seq!['b', 'y', 'i'], seq!['び', 'ぃ']) }
    else if i == 10 { (seq!['b', 'y', 'o'], seq!['び', 'ょ']) }
    else if i == 11 { (seq!['b', 'y', 'u'], seq!['び', 'ゅ']) }
    else if i == 12 { (seq!['c', 'a'], seq!['か']) }
    else if i == 13 { (seq!['c', 'e'], seq!['せ']) }
    else if i == 14 { (seq!['c', 'h', 'a'], seq!['ち', 'ゃ']) }
    else if i == 15 { (seq!['c', 'h', 'e'], seq!['ち', 'ぇ']) }
    else if i == 16 { (seq!['c', 'h', 'i'], seq!['ち']) }
    else if i == 17 { (seq!['c', 'h', 'o'], seq!['ち', 'ょ']) }
    else if i == 18 { (seq!['c', 'h', 'u'], seq!['ち', 'ゅ']) }
    else if i == 19 { (seq!['c', 'i'], seq!['し']) }
    else if i == 20 { (seq!['c', 'o'], seq!['こ']) }
    else if i == 21 { (seq!['c', 'u'], seq!['く']) }
    else if i == 22 { (seq!['c', 'y', 'a'], seq!['ち', 'ゃ']) }
    else if i == 23 { (seq!['c', 'y', 'e'], seq!['ち', 'ぇ']) }
    else if i == 24 { (seq!['c', 'y', 'i'], seq!['ち', 'ぃ']) }
    else if i == 25 { (seq!['c', 'y', 'o'], seq!['ち', 'ょ']) }
    else if i == 26 { (seq!['c', 'y', 'u'], seq!['ち', 'ゅ']) }
    else if i == 27 { (seq!['d', 'a'], seq!['だ']) }
    else if i == 28 { (seq!['d', 'e'], seq!['で']) }
    else if i == 29 { (seq!['d', 'h', 'i'], seq!['で', 'ぃ']) }
    else if i == 30 { (seq!['d', 'h', 'u'], seq!['で', 'ゅ']) }
    else if i == 31 { (seq!['d', 'i'], seq!['ぢ']) }
    else if i == 32 { (seq!['d', 'o'], seq!['ど']) }
    else if i == 33 { (seq!['d', 'u'], seq!['づ']) }
    else if i == 34 { (seq!['d', 'w', 'u'], seq!['ど', 'ぅ']) }
    else if i == 35 { (seq!['d', 'y', 'a'], seq!['ぢ', 'ゃ']) }
    else if i == 36 { (seq!['d', 'y', 'e'], seq!['ぢ', 'ぇ']) }
    else if i == 37 { (seq!['d', 'y', 'i'], seq!['ぢ', 'ぃ']) }
    else if i == 38 { (seq!['d', 'y', 'o'], seq!['ぢ', 'ょ']) }
    else if i == 39 { (seq!['d', 'y', 'u'], seq!['ぢ', 'ゅ']) }
    else if i == 40 { (seq!['e'], seq!['え']) }
    else if i == 41 { (seq!['f', 'a'], seq!['ふ', 'ぁ']) }
    else if i == 42 { (seq!['f', 'e'], seq!['ふ', 'ぇ']) }
    else if i == 43 { (seq!['f', 'i'], seq!['ふ', 'ぃ']) }
    else if i == 44 { (seq!['f', 'o'], seq!['ふ', 'ぉ']) }
    else if i == 45 { (seq!['f', 'u'], seq!['ふ']) }
    else if i == 46 { (seq!['f', 'y', 'u'], seq!['ふ', 'ゅ']) }
    else if i == 47 { (seq!['g', 'a'], seq!['が']) }
    else if i == 48 { (seq!['g', 'e'], seq!['げ']) }
    else if i == 49 { (seq!['g', 'i'], seq!['ぎ']) }
    else if i == 50 { (seq!['g', 'o'], seq!['ご']) }
    else if i == 51 { (seq!['g', 'u'], seq!['ぐ']) }
    else if i == 52 { (seq!['g', 'y', 'a'], seq!['ぎ', 'ゃ']) }
    else if i == 53 { (seq!['g', 'y', 'e'], seq!['ぎ', 'ぇ']) }
    else if i == 54 { (seq!['g', 'y', 'i'], seq!['ぎ', 'ぃ']) }
    else if i == 55 { (seq!['g', 'y', 'o'], seq!['ぎ', 'ょ']) }
    else if i == 56 { (seq!['g', 'y', 'u'], seq!['ぎ', 'ゅ']) }
    else if i == 57 { (seq!['h', 'a'], seq!['は']) }
    else if i == 58 { (seq!['h', 'e'], seq!['へ']) }
    else if i == 59 { (seq!['h', 'i'], seq!['ひ']) }
    else if i == 60 { (seq!['h', 'o'], seq!['ほ']) }
    else if i == 61 { (seq!['h', 'u'], seq!['ふ']) }
    else if i == 62 { (seq!['h', 'y', 'a'], seq!['ひ', 'ゃ']) }
    else if i == 63 { (seq!['h', 'y', 'e'], seq!['ひ', 'ぇ']) }
    else if i == 64 { (seq!['h', 'y', 'i'], seq!['ひ', 'ぃ']) }
    else if i == 65 { (seq!['h', 'y', 'o'], seq!['ひ', 'ょ']) }
    else if i == 66 { (seq!['h', 'y', 'u'], seq!['ひ', 'ゅ']) }
    else if i == 67 { (seq!['i'], seq!['い']) }
    else if i == 68 { (seq!['j', 'a'], seq!['じ', 'ゃ']) }
    else if i == 69 { (seq!['j', 'e'], seq!['じ', 'ぇ']) }
    else if i == 70 { (seq!['j', 'i'], seq!['じ']) }
    else if i == 71 { (seq!['j', 'o'], seq!['じ', 'ょ']) }
    else if i == 72 { (seq!['j', 'u'], seq!['じ', 'ゅ']) }
    else if i == 73 { (seq!['j', 'y', 'a'], seq!['じ', 'ゃ']) }
    else if i == 74 { (seq!['j', 'y', 'e'], seq!['じ', 'ぇ']) }
    else if i == 75 { (seq!['j', 'y', 'i'], seq!['じ', 'ぃ']) }
    else if i == 76 { (seq!['j', 'y', 'o'], seq!['じ', 'ょ']) }
    else if i == 77 { (seq!['j', 'y', 'u'], seq!['じ', 'ゅ']) }
    else if i == 78 { (seq!['k', 'a'], seq!['か']) }
    else if i == 79 { (seq!['k', 'e'], seq!['け']) }
    else if i == 80 { (seq!['k', 'i'], seq!['き']) }
    else if i == 81 { (seq!['k', 'o'], seq!['こ']) }
    else if i == 82 { (seq!['k', 'u'], seq!['く']) }
    else if i == 83 { (seq!['k', 'y', 'a'], seq!['き', 'ゃ']) }
    else if i == 84 { (seq!['k', 'y', 'e'], seq!['き', 'ぇ']) }
    else if i == 85 { (seq!['k', 'y', 'i'], seq!['き', 'ぃ']) }
    else if i == 86 { (seq!['k', 'y', 'o'], seq!['き', 'ょ']) }
    else if i == 87 { (seq!['k', 'y', 'u'], seq!['き', 'ゅ']) }
    else if i == 88 { (seq!['l', 'a'], seq!['ぁ']) }
    else if i == 89 { (seq!['l', 'e'], seq!['ぇ']) }
    else if i == 90 { (seq!['l', 'i'], seq!['ぃ']) }
    else if i == 91 { (seq!['l', 'o'], seq!['ぉ']) }
    else if i == 92 { (seq!['l', 't', 's', 'u'], seq!['っ']) }
    else if i == 93 { (seq!['l', 't', 'u'], seq!['っ']) }
    else if i == 94 { (seq!['l', 'u'], seq!['ぅ']) }
    else if i == 95 { (seq!['l', 'w', 'a'], seq!['ゎ']) }
    else if i == 96 { (seq!['l', 'y', 'a'], seq!['ゃ']) }
    else if i == 97 { (seq!['l', 'y', 'o'], seq!['ょ']) }
    else if i == 98 { (seq!['l', 'y', 'u'], seq!['ゅ']) }
    else if i == 99 { (seq!['m', 'a'], seq!['ま']) }
    else if i == 100 { (seq!['m', 'e'], seq!['め']) }
    else if i == 101 { (seq!['m', 'i'], seq!['み']) }
    else if i == 102 { (seq!['m', 'o'], seq!['も']) }
    else if i == 103 { (seq!['m', 'u'], seq!['む']) }
    else if i == 104 { (seq!['m', 'y', 'a'], seq!['み', 'ゃ']) }
    else if i == 105 { (seq!['m', 'y', 'e'], seq!['み', 'ぇ']) }
    else if i == 106 { (seq!['m', 'y', 'i'], seq!['み', 'ぃ']) }
    else if i == 107 { (seq!['m', 'y', 'o'], seq!['み', 'ょ']) }
    else if i == 108 { (seq!['m', 'y', 'u'], seq!['み', 'ゅ']) }
    else if i == 109 { (seq!['n', '\''], seq!['ん']) }
    else if i == 110 { (seq!['n', 'a'], seq!['な']) }
    else if i == 111 { (seq!['n', 'e'], seq!['ね']) }
    else if i == 112 { (seq!['n', 'i'], seq!['に']) }
    else if i == 113 { (seq!['n', 'n'], seq!['ん']) }
    else if i == 114 { (seq!['n', 'o'], seq!['の']) }
    else if i == 115 { (seq!['n', 'u'], seq!['ぬ']) }
    else if i == 116 { (seq!['n', 'y', 'a'], seq!['に', 'ゃ']) }
    else if i == 117 { (seq!['n', 'y', 'e'], seq!['に', 'ぇ']) }
    else if i == 118 { (seq!['n', 'y', 'i'], seq!['に', 'ぃ']) }
    else if i == 119 { (seq!['n', 'y', 'o'], seq!['に', 'ょ']) }
    else if i == 120 { (seq!['n', 'y', 'u'], seq!['に', 'ゅ']) }
    else if i == 121 { (seq!['o'], seq!['お']) }
    else if i == 122 { (seq!['p', 'a'], seq!['ぱ']) }
    else if i == 123 { (seq!['p', 'e'], seq!['ぺ']) }
    else if i == 124 { (seq!['p', 'i'], seq!['ぴ']) }
    else if i == 125 { (seq!['p', 'o'], seq!['ぽ']) }
    else if i == 126 { (seq!['p', 'u'], seq!['ぷ']) }
    else if i == 127 { (seq!['p', 'y', 'a'], seq!['ぴ', 'ゃ']) }
    else if i == 128 { (seq!['p', 'y', 'e'], seq!['ぴ', 'ぇ']) }
    else if i == 129 { (seq!['p', 'y', 'i'], seq!['ぴ', 'ぃ']) }
    else if i == 130 { (seq!['p', 'y', 'o'], seq!['ぴ', 'ょ']) }
    else if i == 131 { (seq!['p', 'y', 'u'], seq!['ぴ', 'ゅ']) }
    else if i == 132 { (seq!['r', 'a'], seq!['ら']) }
    else if i == 133 { (seq!['r', 'e'], seq!['れ']) }
    else if i == 134 { (seq!['r', 'i'], seq!['り']) }
    else if i == 135 { (seq!['r', 'o'], seq!['ろ']) }
    else if i == 136 { (seq!['r', 'u'], seq!['る']) }
    else if i == 137 { (seq!['r', 'y', 'a'], seq!['り', 'ゃ']) }
    else if i == 138 { (seq!['r', 'y', 'e'], seq!['り', 'ぇ']) }
    else if i == 139 { (seq!['r', 'y', 'i'], seq!['り', 'ぃ']) }
    else if i == 140 { (seq!['r', 'y', 'o'], seq!['り', 'ょ']) }
    else if i == 141 { (seq!['r', 'y', 'u'], seq!['り', 'ゅ']) }
    else if i == 142 { (seq!['s', 'a'], seq!['さ']) }
    else if i == 143 { (seq!['s', 'e'], seq!['せ']) }
    else if i == 144 { (seq!['s', 'h', 'a'], seq!['し', 'ゃ']) }
    else if i == 145 { (seq!['s', 'h', 'e'], seq!['し', 'ぇ']) }
    else if i == 146 { (seq!['s', 'h', 'i'], seq!['し']) }
    else if i == 147 { (seq!['s', 'h', 'o'], seq!['し', 'ょ']) }
    else if i == 148 { (seq!['s', 'h', 'u'], seq!['し', 'ゅ']) }
    else if i == 149 { (seq!['s', 'i'], seq!['し']) }
    else if i == 150 { (seq!['s', 'o'], seq!['そ']) }
    else if i == 151 { (seq!['s', 'u'], seq!['す']) }
    else if i == 152 { (seq!['s', 'y', 'a'], seq!['し', 'ゃ']) }
    else if i == 153 { (seq!['s', 'y', 'e'], seq!['し', 'ぇ']) }
    else if i == 154 { (seq!['s', 'y', 'i'], seq!['し', 'ぃ']) }
    else if i == 155 { (seq!['s', 'y', 'o'], seq!['し', 'ょ']) }
    else if i == 156 { (seq!['s', 'y', 'u'], seq!['し', 'ゅ']) }
    else if i == 157 { (seq!['t', 'a'], seq!['た']) }
    else if i == 158 { (seq!['t', 'c', 'h', 'a'], seq!['っ', 'ち', 'ゃ']) }
    else if i == 159 { (seq!['t', 'c', 'h', 'e'], seq!['っ', 'ち', 'ぇ']) }
    else if i == 160 { (seq!['t', 'c', 'h', 'i'], seq!['っ', 'ち']) }
    else if i == 161 { (seq!['t', 'c', 'h', 'o'], seq!['っ', 'ち', 'ょ']) }
    else if i == 162 { (seq!['t', 'c', 'h', 'u'], seq!['っ', 'ち', 'ゅ']) }
    else if i == 163 { (seq!['t', 'e'], seq!['て']) }
    else if i == 164 { (seq!['t', 'h', 'i'], seq!['て', 'ぃ']) }
    else if i == 165 { (seq!['t', 'h', 'u'], seq!['て', 'ゅ']) }
    else if i == 166 { (seq!['t', 'i'], seq!['ち']) }
    else if i == 167 { (seq!['t', 'o'], seq!['と']) }
    else if i == 168 { (seq!['t', 's', 'a'], seq!['つ', 'ぁ']) }
    else if i == 169 { (seq!['t', 's', 'e'], seq!['つ', 'ぇ']) }
    else if i == 170 { (seq!['t', 's', 'i'], seq!['つ', 'ぃ']) }
    else if i == 171 { (seq!['t', 's', 'o'], seq!['つ', 'ぉ']) }
    else if i == 172 { (seq!['t', 's', 'u'], seq!['つ']) }
    else if i == 173 { (seq!['t', 'u'], seq!['つ']) }
    else if i == 174 { (seq!['t', 'w', 'u'], seq!['と', 'ぅ']) }
    else if i == 175 { (seq!['t', 'y', 'a'], seq!['ち', 'ゃ']) }
    else if i == 176 { (seq!['t', 'y', 'e'], seq!['ち', 'ぇ']) }
    else if i == 177 { (seq!['t', 'y', 'i'], seq!['ち', 'ぃ']) }
    else if i == 178 { (seq!['t', 'y', 'o'], seq!['ち', 'ょ']) }
    else if i == 179 { (seq!['t', 'y', 'u'], seq!['ち', 'ゅ']) }
    else if i == 180 { (seq!['u'], seq!['う']) }
    else if i == 181 { (seq!['v', 'a'], seq!['ゔ', 'ぁ']) }
    else if i == 182 { (seq!['v', 'e'], seq!['ゔ', 'ぇ']) }
    else if i == 183 { (seq!['v', 'i'], seq!['ゔ', 'ぃ']) }
    else if i == 184 { (seq!['v', 'o'], seq!['ゔ', 'ぉ']) }
    else if i == 185 { (seq!['v', 'u'], seq!['ゔ']) }
    else if i == 186 { (seq!['w', 'a'], seq!['わ']) }
    else if i == 187 { (seq!['w', 'e'], seq!['う', 'ぇ']) }
    else if i == 188 { (seq!['w', 'i'], seq!['う', 'ぃ']) }
    else if i == 189 { (seq!['w', 'o'], seq!['を']) }
    else if i == 190 { (seq!['w', 'u'], seq!['う']) }
    else if i == 191 { (seq!['x', 'a'], seq!['ぁ']) }
    else if i == 192 { (seq!['x', 'e'], seq!['ぇ']) }
    else if i == 193 { (seq!['x', 'i'], seq!['ぃ']) }
    else if i == 194 { (seq!['x', 'o'], seq!['ぉ']) }
    else if i == 195 { (seq!['x', 't', 's', 'u'], seq!['っ']) }
    else if i == 196 { (seq!['x', 't', 'u'], seq!['っ']) }
    else if i == 197 { (seq!['x', 'u'], seq!['ぅ']) }
    else if i == 198 { (seq!['x', 'w', 'a'], seq!['ゎ']) }
    else if i == 199 { (seq!['x', 'y', 'a'], seq!['ゃ']) }
    else if i == 200 { (seq!['x', 'y', 'o'], seq!['ょ']) }
    else if i == 201 { (seq!['x', 'y', 'u'], seq!['ゅ']) }
    else if i == 202 { (seq!['y', 'a'], seq!['や']) }
    else if i == 203 { (seq!['y', 'e'], seq!['い', 'ぇ']) }
    else if i == 204 { (seq!['y', 'o'], seq!['よ']) }
    else if i == 205 { (seq!['y', 'u'], seq!['ゆ']) }
    else if i == 206 { (seq!['z', 'a'], seq!['ざ']) }
    else if i == 207 { (seq!['z', 'e'], seq!['ぜ']) }
    else if i == 208 { (seq!['z', 'i'], seq!['じ']) }
    else if i == 209 { (seq!['z', 'o'], seq!['ぞ']) }
    else if i == 210 { (seq!['z', 'u'], seq!['ず']) }
    else if i == 211 { (seq!['z', 'y', 'a'], seq!['じ', 'ゃ']) }
    else if i == 212 { (seq!['z', 'y', 'e'], seq!['じ', 'ぇ']) }
    else if i == 213 { (seq!['z', 'y', 'i'], seq!['じ', 'ぃ']) }
    else if i == 214 { (seq!['z', 'y', 'o'], seq!['じ', 'ょ']) }
    else if i == 215 { (seq!['z', 'y', 'u'], seq!['じ', 'ゅ']) }
    else { (Seq::empty(), Seq::empty()) }
}

/// Returns row `i` of the romaji table.
pub fn entry(i: usize) -> (r: (Vec<char>, Vec<char>))
    requires
        i < TABLE_LEN,
    ensures
        r.0@ == spec_entry(i as int).0,
        r.1@ == spec_entry(i as int).1,
{
    if i == 0 { (vec!['-'], vec!['ー']) }
    else if i == 1 { (vec!['a'], vec!['あ']) }
    else if i == 2 { (vec!['b', 'a'], vec!['ば']) }
    else if i == 3 { (vec!['b', 'e'], vec!['べ']) }
    else if i == 4 { (vec!['b', 'i'], vec!['び']) }
    else if i == 5 { (vec!['b', 'o'], vec!['ぼ']) }
    else if i == 6 { (vec!['b', 'u'], vec!['ぶ']) }
    else if i == 7 { (vec!['b', 'y', 'a'], vec!['び', 'ゃ']) }
    else if i == 8 { (vec!['b', 'y', 'e'], vec!['び', 'ぇ']) }
    else if i == 9 { (vec!['b', 'y', 'i'], vec!['び', 'ぃ']) }
    else if i == 10 { (vec!['b', 'y', 'o'], vec!['び', 'ょ']) }
    else if i == 11 { (vec!['b', 'y', 'u'], vec!['び', 'ゅ']) }
    else if i == 12 { (vec!['c', 'a'], vec!['か']) }
    else if i == 13 { (vec!['c', 'e'], vec!['せ']) }
    else if i == 14 { (vec!['c', 'h', 'a'], vec!['ち', 'ゃ']) }
    else if i == 15 { (vec!['c', 'h', 'e'], vec!['ち', 'ぇ']) }
    else if i == 16 { (vec!['c', 'h', 'i'], vec!['ち']) }
    else if i == 17 { (vec!['c', 'h', 'o'], vec!['ち', 'ょ']) }
    else if i == 18 { (vec!['c', 'h', 'u'], vec!['ち', 'ゅ']) }
    else if i == 19 { (vec!['c', 'i'], vec!['し']) }
    else if i == 20 { (vec!['c', 'o'], vec!['こ']) }
    else if i == 21 { (vec!['c', 'u'], vec!['く']) }
    else if i == 22 { (vec!['c', 'y', 'a'], vec!['ち', 'ゃ']) }
    else if i == 23 { (vec!['c', 'y', 'e'], vec!['ち', 'ぇ']) }
    else if i == 24 { (vec!['c', 'y', 'i'], vec!['ち', 'ぃ']) }
    else if i == 25 { (vec!['c', 'y', 'o'], vec!['ち', 'ょ']) }
    else if i == 26 { (vec!['c', 'y', 'u'], vec!['ち', 'ゅ']) }
    else if i == 27 { (vec!['d', 'a'], vec!['だ']) }
    else if i == 28 { (vec!['d', 'e'], vec!['で']) }
    else if i == 29 { (vec!['d', 'h', 'i'], vec!['で', 'ぃ']) }
    else if i == 30 { (vec!['d', 'h', 'u'], vec!['で', 'ゅ']) }
    else if i == 31 { (vec!['d', 'i'], vec!['ぢ']) }
    else if i == 32 { (vec!['d', 'o'], vec!['ど']) }
    else if i == 33 { (vec!['d', 'u'], vec!['づ']) }
    else if i == 34 { (vec!['d', 'w', 'u'], vec!['ど', 'ぅ']) }
    else if i == 35 { (vec!['d', 'y', 'a'], vec!['ぢ', 'ゃ']) }
    else if i == 36 { (vec!['d', 'y', 'e'], vec!['ぢ', 'ぇ']) }
    else if i == 37 { (vec!['d', 'y', 'i'], vec!['ぢ', 'ぃ']) }
    else if i == 38 { (vec!['d', 'y', 'o'], vec!['ぢ', 'ょ']) }
    else if i == 39 { (vec!['d', 'y', 'u'], vec!['ぢ', 'ゅ']) }
    else if i == 40 { (vec!['e'], vec!['え']) }
    else if i == 41 { (vec!['f', 'a'], vec!['ふ', 'ぁ']) }
    else if i == 42 { (vec!['f', 'e'], vec!['ふ', 'ぇ']) }
    else if i == 43 { (vec!['f', 'i'], vec!['ふ', 'ぃ']) }
    else if i == 44 { (vec!['f', 'o'], vec!['ふ', 'ぉ']) }
    else if i == 45 { (vec!['f', 'u'], vec!['ふ']) }
    else if i == 46 { (vec!['f', 'y', 'u'], vec!['ふ', 'ゅ']) }
    else if i == 47 { (vec!['g', 'a'], vec!['が']) }
    else if i == 48 { (vec!['g', 'e'], vec!['げ']) }
    else if i == 49 { (vec!['g', 'i'], vec!['ぎ']) }
    else if i == 50 { (vec!['g', 'o'], vec!['ご']) }
    else if i == 51 { (vec!['g', 'u'], vec!['ぐ']) }
    else if i == 52 { (vec!['g', 'y', 'a'], vec!['ぎ', 'ゃ']) }
    else if i == 53 { (vec!['g', 'y', 'e'], vec!['ぎ', 'ぇ']) }
    else if i == 54 { (vec!['g', 'y', 'i'], vec!['ぎ', 'ぃ']) }
    else if i == 55 { (vec!['g', 'y', 'o'], vec!['ぎ', 'ょ']) }
    else if i == 56 { (vec!['g', 'y', 'u'], vec!['ぎ', 'ゅ']) }
    else if i == 57 { (vec!['h', 'a'], vec!['は']) }
    else if i == 58 { (vec!['h', 'e'], vec!['へ']) }
    else if i == 59 { (vec!['h', 'i'], vec!['ひ']) }
    else if i == 60 { (vec!['h', 'o'], vec!['ほ']) }
    else if i == 61 { (vec!['h', 'u'], vec!['ふ']) }
    else if i == 62 { (vec!['h', 'y', 'a'], vec!['ひ', 'ゃ']) }
    else if i == 63 { (vec!['h', 'y', 'e'], vec!['ひ', 'ぇ']) }
    else if i == 64 { (vec!['h', 'y', 'i'], vec!['ひ', 'ぃ']) }
    else if i == 65 { (vec!['h', 'y', 'o'], vec!['ひ', 'ょ']) }
    else if i == 66 { (vec!['h', 'y', 'u'], vec!['ひ', 'ゅ']) }
    else if i == 67 { (vec!['i'], vec!['い']) }
    else if i == 68 { (vec!['j', 'a'], vec!['じ', 'ゃ']) }
    else if i == 69 { (vec!['j', 'e'], vec!['じ', 'ぇ']) }
    else if i == 70 { (vec!['j', 'i'], vec!['じ']) }
    else if i == 71 { (vec!['j', 'o'], vec!['じ', 'ょ']) }
    else if i == 72 { (vec!['j', 'u'], vec!['じ', 'ゅ']) }
    else if i == 73 { (vec!['j', 'y', 'a'], vec!['じ', 'ゃ']) }
    else if i == 74 { (vec!['j', 'y', 'e'], vec!['じ', 'ぇ']) }
    else if i == 75 { (vec!['j', 'y', 'i'], vec!['じ', 'ぃ']) }
    else if i == 76 { (vec!['j', 'y', 'o'], vec!['じ', 'ょ']) }
    else if i == 77 { (vec!['j', 'y', 'u'], vec!['じ', 'ゅ']) }
    else if i == 78 { (vec!['k', 'a'], vec!['か']) }
    else if i == 79 { (vec!['k', 'e'], vec!['け']) }
    else if i == 80 { (vec!['k', 'i'], vec!['き']) }
    else if i == 81 { (vec!['k', 'o'], vec!['こ']) }
    else if i == 82 { (vec!['k', 'u'], vec!['く']) }
    else if i == 83 { (vec!['k', 'y', 'a'], vec!['き', 'ゃ']) }
    else if i == 84 { (vec!['k', 'y', 'e'], vec!['き', 'ぇ']) }
    else if i == 85 { (vec!['k', 'y', 'i'], vec!['き', 'ぃ']) }
    else if i == 86 { (vec!['k', 'y', 'o'], vec!['き', 'ょ']) }
    else if i == 87 { (vec!['k', 'y', 'u'], vec!['き', 'ゅ']) }
    else if i == 88 { (vec!['l', 'a'], vec!['ぁ']) }
    else if i == 89 { (vec!['l', 'e'], vec!['ぇ']) }
    else if i == 90 { (vec!['l', 'i'], vec!['ぃ']) }
    else if i == 91 { (vec!['l', 'o'], vec!['ぉ']) }
    else if i == 92 { (vec!['l', 't', 's', 'u'], vec!['っ']) }
    else if i == 93 { (vec!['l', 't', 'u'], vec!['っ']) }
    else if i == 94 { (vec!['l', 'u'], vec!['ぅ']) }
    else if i == 95 { (vec!['l', 'w', 'a'], vec!['ゎ']) }
    else if i == 96 { (vec!['l', 'y', 'a'], vec!['ゃ']) }
    else if i == 97 { (vec!['l', 'y', 'o'], vec!['ょ']) }
    else if i == 98 { (vec!['l', 'y', 'u'], vec!['ゅ']) }
    else if i == 99 { (vec!['m', 'a'], vec!['ま']) }
    else if i == 100 { (vec!['m', 'e'], vec!['め']) }
    else if i == 101 { (vec!['m', 'i'], vec!['み']) }
    else if i == 102 { (vec!['m', 'o'], vec!['も']) }
    else if i == 103 { (vec!['m', 'u'], vec!['む']) }
    else if i == 104 { (vec!['m', 'y', 'a'], vec!['み', 'ゃ']) }
    else if i == 105 { (vec!['m', 'y', 'e'], vec!['み', 'ぇ']) }
    else if i == 106 { (vec!['m', 'y', 'i'], vec!['み', 'ぃ']) }
    else if i == 107 { (vec!['m', 'y', 'o'], vec!['み', 'ょ']) }
    else if i == 108 { (vec!['m', 'y', 'u'], vec!['み', 'ゅ']) }
    else if i == 109 { (vec!['n', '\''], vec!['ん']) }
    else if i == 110 { (vec!['n', 'a'], vec!['な']) }
    else if i == 111 { (vec!['n', 'e'], vec!['ね']) }
    else if i == 112 { (vec!['n', 'i'], vec!['に']) }
    else if i == 113 { (vec!['n', 'n'], vec!['ん']) }
    else if i == 114 { (vec!['n', 'o'], vec!['の']) }
    else if i == 115 { (vec!['n', 'u'], vec!['ぬ']) }
    else if i == 116 { (vec!['n', 'y', 'a'], vec!['に', 'ゃ']) }
    else if i == 117 { (vec!['n', 'y', 'e'], vec!['に', 'ぇ']) }
    else if i == 118 { (vec!['n', 'y', 'i'], vec!['に', 'ぃ']) }
    else if i == 119 { (vec!['n', 'y', 'o'], vec!['に', 'ょ']) }
    else if i == 120 { (vec!['n', 'y', 'u'], vec!['に', 'ゅ']) }
    else if i == 121 { (vec!['o'], vec!['お']) }
    else if i == 122 { (vec!['p', 'a'], vec!['ぱ']) }
    else if i == 123 { (vec!['p', 'e'], vec!['ぺ']) }
    else if i == 124 { (vec!['p', 'i'], vec!['ぴ']) }
    else if i == 125 { (vec!['p', 'o'], vec!['ぽ']) }
    else if i == 126 { (vec!['p', 'u'], vec!['ぷ']) }
    else if i == 127 { (vec!['p', 'y', 'a'], vec!['ぴ', 'ゃ']) }
    else if i == 128 { (vec!['p', 'y', 'e'], vec!['ぴ', 'ぇ']) }
    else if i == 129 { (vec!['p', 'y', 'i'], vec!['ぴ', 'ぃ']) }
    else if i == 130 { (vec!['p', 'y', 'o'], vec!['ぴ', 'ょ']) }
    else if i == 131 { (vec!['p', 'y', 'u'], vec!['ぴ', 'ゅ']) }
    else if i == 132 { (vec!['r', 'a'], vec!['ら']) }
    else if i == 133 { (vec!['r', 'e'], vec!['れ']) }
    else if i == 134 { (vec!['r', 'i'], vec!['り']) }
    else if i == 135 { (vec!['r', 'o'], vec!['ろ']) }
    else if i == 136 { (vec!['r', 'u'], vec!['る']) }
    else if i == 137 { (vec!['r', 'y', 'a'], vec!['り', 'ゃ']) }
    else if i == 138 { (vec!['r', 'y', 'e'], vec!['り', 'ぇ']) }
    else if i == 139 { (vec!['r', 'y', 'i'], vec!['り', 'ぃ']) }
    else if i == 140 { (vec!['r', 'y', 'o'], vec!['り', 'ょ']) }
    else if i == 141 { (vec!['r', 'y', 'u'], vec!['り', 'ゅ']) }
    else if i == 142 { (vec!['s', 'a'], vec!['さ']) }
    else if i == 143 { (vec!['s', 'e'], vec!['せ']) }
    else if i == 144 { (vec!['s', 'h', 'a'], vec!['し', 'ゃ']) }
    else if i == 145 { (vec!['s', 'h', 'e'], vec!['し', 'ぇ']) }
    else if i == 146 { (vec!['s', 'h', 'i'], vec!['し']) }
    else if i == 147 { (vec!['s', 'h', 'o'], vec!['し', 'ょ']) }
    else if i == 148 { (vec!['s', 'h', 'u'], vec!['し', 'ゅ']) }
    else if i == 149 { (vec!['s', 'i'], vec!['し']) }
    else if i == 150 { (vec!['s', 'o'], vec!['そ']) }
    else if i == 151 { (vec!['s', 'u'], vec!['す']) }
    else if i == 152 { (vec!['s', 'y', 'a'], vec!['し', 'ゃ']) }
    else if i == 153 { (vec!['s', 'y', 'e'], vec!['し', 'ぇ']) }
    else if i == 154 { (vec!['s', 'y', 'i'], vec!['し', 'ぃ']) }
    else if i == 155 { (vec!['s', 'y', 'o'], vec!['し', 'ょ']) }
    else if i == 156 { (vec!['s', 'y', 'u'], vec!['し', 'ゅ']) }
    else if i == 157 { (vec!['t', 'a'], vec!['た']) }
    else if i == 158 { (vec!['t', 'c', 'h', 'a'], vec!['っ', 'ち', 'ゃ']) }
    else if i == 159 { (vec!['t', 'c', 'h', 'e'], vec!['っ', 'ち', 'ぇ']) }
    else if i == 160 { (vec!['t', 'c', 'h', 'i'], vec!['っ', 'ち']) }
    else if i == 161 { (vec!['t', 'c', 'h', 'o'], vec!['っ', 'ち', 'ょ']) }
    else if i == 162 { (vec!['t', 'c', 'h', 'u'], vec!['っ', 'ち', 'ゅ']) }
    else if i == 163 { (vec!['t', 'e'], vec!['て']) }
    else if i == 164 { (vec!['t', 'h', 'i'], vec!['て', 'ぃ']) }
    else if i == 165 { (vec!['t', 'h', 'u'], vec!['て', 'ゅ']) }
    else if i == 166 { (vec!['t', 'i'], vec!['ち']) }
    else if i == 167 { (vec!['t', 'o'], vec!['と']) }
    else if i == 168 { (vec!['t', 's', 'a'], vec!['つ', 'ぁ']) }
    else if i == 169 { (vec!['t', 's', 'e'], vec!['つ', 'ぇ']) }
    else if i == 170 { (vec!['t', 's', 'i'], vec!['つ', 'ぃ']) }
    else if i == 171 { (vec!['t', 's', 'o'], vec!['つ', 'ぉ']) }
    else if i == 172 { (vec!['t', 's', 'u'], vec!['つ']) }
    else if i == 173 { (vec!['t', 'u'], vec!['つ']) }
    else if i == 174 { (vec!['t', 'w', 'u'], vec!['と', 'ぅ']) }
    else if i == 175 { (vec!['t', 'y', 'a'], vec!['ち', 'ゃ']) }
    else if i == 176 { (vec!['t', 'y', 'e'], vec!['ち', 'ぇ']) }
    else if i == 177 { (vec!['t', 'y', 'i'], vec!['ち', 'ぃ']) }
    else if i == 178 { (vec!['t', 'y', 'o'], vec!['ち', 'ょ']) }
    else if i == 179 { (vec!['t', 'y', 'u'], vec!['ち', 'ゅ']) }
    else if i == 180 { (vec!['u'], vec!['う']) }
    else if i == 181 { (vec!['v', 'a'], vec!['ゔ', 'ぁ']) }
    else if i == 182 { (vec!['v', 'e'], vec!['ゔ', 'ぇ']) }
    else if i == 183 { (vec!['v', 'i'], vec!['ゔ', 'ぃ']) }
    else if i == 184 { (vec!['v', 'o'], vec!['ゔ', 'ぉ']) }
    else if i == 185 { (vec!['v', 'u'], vec!['ゔ']) }
    else if i == 186 { (vec!['w', 'a'], vec!['わ']) }
    else if i == 187 { (vec!['w', 'e'], vec!['う', 'ぇ']) }
    else if i == 188 { (vec!['w', 'i'], vec!['う', 'ぃ']) }
    else if i == 189 { (vec!['w', 'o'], vec!['を']) }
    else if i == 190 { (vec!['w', 'u'], vec!['う']) }
    else if i == 191 { (vec!['x', 'a'], vec!['ぁ']) }
    else if i == 192 { (vec!['x', 'e'], vec!['ぇ']) }
    else if i == 193 { (vec!['x', 'i'], vec!['ぃ']) }
    else if i == 194 { (vec!['x', 'o'], vec!['ぉ']) }
    else if i == 195 { (vec!['x', 't', 's', 'u'], vec!['っ']) }
    else if i == 196 { (vec!['x', 't', 'u'], vec!['っ']) }
    else if i == 197 { (vec!['x', 'u'], vec!['ぅ']) }
    else if i == 198 { (vec!['x', 'w', 'a'], vec!['ゎ']) }
    else if i == 199 { (vec!['x', 'y', 'a'], vec!['ゃ']) }
    else if i == 200 { (vec!['x', 'y', 'o'], vec!['ょ']) }
    else if i == 201 { (vec!['x', 'y', 'u'], vec!['ゅ']) }
    else if i == 202 { (vec!['y', 'a'], vec!['や']) }
    else if i == 203 { (vec!['y', 'e'], vec!['い', 'ぇ']) }
    else if i == 204 { (vec!['y', 'o'], vec!['よ']) }
    else if i == 205 { (vec!['y', 'u'], vec!['ゆ']) }
    else if i == 206 { (vec!['z', 'a'], vec!['ざ']) }
    else if i == 207 { (vec!['z', 'e'], vec!['ぜ']) }
    else if i == 208 { (vec!['z', 'i'], vec!['じ']) }
    else if i == 209 { (vec!['z', 'o'], vec!['ぞ']) }
    else if i == 210 { (vec!['z', 'u'], vec!['ず']) }
    else if i == 211 { (vec!['z', 'y', 'a'], vec!['じ', 'ゃ']) }
    else if i == 212 { (vec!['z', 'y', 'e'], vec!['じ', 'ぇ']) }
    else if i == 213 { (vec!['z', 'y', 'i'], vec!['じ', 'ぃ']) }
    else if i == 214 { (vec!['z', 'y', 'o'], vec!['じ', 'ょ']) }
    else if i == 215 { (vec!['z', 'y', 'u'], vec!['じ', 'ゅ']) }
    else { (Vec::new(), Vec::new()) }
}

} // verus!
